use autostart::error::AppError;
use autostart::models::{AppItem, LaunchItem, OnClose, ProcessNameMode, Profile, Settings, Trigger, UrlItem, MAX_CLOSE_DELAY_MS};
use autostart::storage::example_profile;
use autostart::validation::{is_steam_launch_link, is_supported_item_url, validate_profile, validate_settings};

fn profile_with_url(url: &str) -> Profile {
    Profile {
        items: vec![LaunchItem::Url(UrlItem {
            id: uuid::Uuid::new_v4().to_string(),
            name: "Site".into(),
            url: url.into(),
            delay_ms: 0,
            enabled: true,
            only_for_triggers: Vec::new(),
        })],
        ..example_profile()
    }
}

fn trigger(process_name: &str) -> Trigger {
    Trigger { process_name: process_name.into(), label: "Sim".into(), launch_target: None }
}

fn profile_with_triggers(process_names: &[&str]) -> Profile {
    Profile { triggers: process_names.iter().map(|name| trigger(name)).collect(), ..example_profile() }
}

fn profile_with_launch_target(target: &str) -> Profile {
    let mut profile = example_profile();
    profile.triggers[0].launch_target = Some(target.into());
    profile
}

fn profile_restricting_item_to(only_for: &[&str]) -> Profile {
    let mut profile = profile_with_triggers(&["FlightSimulator.exe", "FlightSimulator2024.exe"]);
    profile.items = profile_with_url("https://simbrief.com").items;
    if let Some(LaunchItem::Url(item)) = profile.items.first_mut() {
        item.only_for_triggers = only_for.iter().map(|name| (*name).into()).collect();
    }
    profile
}

fn message(result: Result<(), AppError>) -> String {
    match result {
        Err(AppError::Validation(message)) => message,
        other => panic!("expected a validation error, got {other:?}"),
    }
}

#[test]
fn example_profile_is_valid() {
    assert!(validate_profile(&example_profile()).is_ok());
}

#[test]
fn rejects_blank_name_and_non_exe_trigger() {
    let blank_name = Profile { name: "  ".into(), ..example_profile() };
    let bad_trigger = Profile { triggers: vec![trigger("FlightSimulator")], ..example_profile() };

    assert!(validate_profile(&blank_name).is_err());
    assert!(validate_profile(&bad_trigger).is_err());
}

#[test]
fn accepts_up_to_five_distinct_triggers() {
    let both_msfs = profile_with_triggers(&["FlightSimulator.exe", "FlightSimulator2024.exe"]);
    let five = profile_with_triggers(&["A.exe", "B.exe", "C.exe", "D.exe", "E.exe"]);

    assert!(validate_profile(&both_msfs).is_ok());
    assert!(validate_profile(&five).is_ok());
}

#[test]
fn rejects_missing_excess_and_repeated_triggers() {
    let none = profile_with_triggers(&[]);
    let six = profile_with_triggers(&["A.exe", "B.exe", "C.exe", "D.exe", "E.exe", "F.exe"]);
    let repeated = profile_with_triggers(&["FlightSimulator2024.exe", "flightsimulator2024.EXE"]);

    assert!(validate_profile(&none).is_err());
    assert!(validate_profile(&six).is_err());
    assert!(validate_profile(&repeated).is_err());
}

#[test]
fn accepts_web_urls_and_steam_launch_links_only() {
    let accepted = ["https://simbrief.com", "http://localhost:8080/map", "steam://rungameid/1234560", "steam://run/1250410"];
    let rejected = [
        "ftp://example.com",
        "not a url",
        "steam://uninstall/123",
        "steam://rungameid/",
        "steam://rungameid/12a",
        "steam://rungameid/1/extra",
        "ms-msdt:/id PCWDiagnostic",
        "file:///C:/Windows/notepad.exe",
        "search-ms:query=x",
    ];

    for url in accepted {
        assert!(validate_profile(&profile_with_url(url)).is_ok(), "{url}");
    }
    for url in rejected {
        assert!(validate_profile(&profile_with_url(url)).is_err(), "{url}");
    }
}

#[test]
fn accepts_executables_steam_links_and_store_apps_as_launch_targets() {
    let accepted = [
        r"D:\X-Plane 12\X-Plane.exe",
        r"C:\Games\msfs.EXE",
        "steam://rungameid/2537590",
        r"shell:AppsFolder\Microsoft.Limitless_8wekyb3d8bbwe!App",
    ];
    let rejected = [
        r"X-Plane 12\X-Plane.exe",
        "X-Plane.exe",
        r"C:\Games\readme.txt",
        "ms-msdt:/id PCWDiagnostic",
        "https://example.com/setup.exe",
        "steam://uninstall/2537590",
        r"shell:AppsFolder\Microsoft.Limitless_8wekyb3d8bbwe",
        r"shell:AppsFolder\..\evil!App",
        r"shell:AppsFolder\My App!App",
    ];

    for target in accepted {
        assert!(validate_profile(&profile_with_launch_target(target)).is_ok(), "{target}");
    }
    for target in rejected {
        assert!(validate_profile(&profile_with_launch_target(target)).is_err(), "{target}");
    }
}

#[test]
fn item_triggers_must_belong_to_the_profile_without_repeats() {
    assert!(validate_profile(&profile_restricting_item_to(&[])).is_ok());
    assert!(validate_profile(&profile_restricting_item_to(&["flightsimulator2024.EXE"])).is_ok());
    assert!(validate_profile(&profile_restricting_item_to(&["X-Plane.exe"])).is_err());
    assert!(validate_profile(&profile_restricting_item_to(&["FlightSimulator.exe", "flightsimulator.exe"])).is_err());
}

#[test]
fn opening_before_the_simulator_excludes_waiting_for_simconnect() {
    let mut profile = example_profile();
    profile.items = vec![LaunchItem::App(AppItem {
        id: uuid::Uuid::new_v4().to_string(),
        name: "TrackIR".into(),
        exe_path: r"C:\TrackIR\TrackIR5.exe".into(),
        args: None,
        working_dir: None,
        process_name: "TrackIR5.exe".into(),
        process_name_mode: ProcessNameMode::Auto,
        icon_base64: None,
        delay_ms: 0,
        run_as_admin: false,
        start_minimized: false,
        wait_for_sim_connect: false,
        restart_on_crash: false,
        launch_before_simulator: true,
        only_for_triggers: Vec::new(),
        on_close: OnClose::Graceful,
        enabled: true,
    })];
    assert!(validate_profile(&profile).is_ok());

    if let Some(LaunchItem::App(item)) = profile.items.first_mut() {
        item.wait_for_sim_connect = true;
    }
    assert!(validate_profile(&profile).is_err());
}

#[test]
fn rejects_out_of_range_timeout_and_close_delay() {
    let short_timeout = Settings { graceful_timeout_ms: 200, ..Settings::default() };
    let long_delay = Settings { close_delay_ms: MAX_CLOSE_DELAY_MS + 1, ..Settings::default() };
    let no_delay = Settings { close_delay_ms: 0, ..Settings::default() };

    assert!(validate_settings(&short_timeout).is_err());
    assert!(validate_settings(&long_delay).is_err());
    assert!(validate_settings(&no_delay).is_ok());
}

#[test]
fn errors_name_the_first_field_at_fault() {
    let bad_id = Profile { id: "nope".into(), name: " ".into(), ..example_profile() };
    assert_eq!(message(validate_profile(&bad_id)), "id is not a valid UUID");

    let repeated = profile_with_triggers(&["A.exe", "a.EXE"]);
    assert_eq!(message(validate_profile(&repeated)), "triggers.1.processName is duplicated");

    let none = profile_with_triggers(&[]);
    assert_eq!(message(validate_profile(&none)), "triggers must have between 1 and 5 entries");

    let bad_url = profile_with_url("ftp://example.com");
    assert_eq!(message(validate_profile(&bad_url)), "items.0.url must be an http(s) URL or a Steam launch link");

    let short_timeout = Settings { graceful_timeout_ms: 200, ..Settings::default() };
    assert_eq!(message(validate_settings(&short_timeout)), "gracefulTimeoutMs is out of range");
}

#[test]
fn repeated_item_ids_are_rejected() {
    let mut profile = profile_with_url("https://simbrief.com");
    let copy = profile.items[0].clone();
    profile.items.push(copy);
    assert_eq!(message(validate_profile(&profile)), "items.1.id is duplicated");
}

#[test]
fn steam_links_and_web_urls_are_recognized() {
    assert!(is_steam_launch_link("steam://run/1250410"));
    assert!(!is_steam_launch_link("steam://run/"));
    assert!(is_supported_item_url("https://simbrief.com"));
    assert!(!is_supported_item_url("ftp://example.com"));
}
