use autostart::models::{Profile, Trigger};
use autostart::storage::example_profile;
use autostart::trigger_conflicts::{disable, profiles_to_disable, resolve_conflicts, shares_trigger};

fn profile(name: &str, triggers: &[&str], enabled: bool) -> Profile {
    Profile {
        id: name.into(),
        name: name.into(),
        triggers: triggers
            .iter()
            .map(|process_name| Trigger {
                process_name: (*process_name).into(),
                label: (*process_name).into(),
                launch_target: None,
            })
            .collect(),
        enabled,
        ..example_profile()
    }
}

fn enabled_ids(profiles: &[Profile]) -> Vec<&str> {
    profiles.iter().filter(|profile| profile.enabled).map(|profile| profile.id.as_str()).collect()
}

#[test]
fn upgrade_keeps_the_legacy_active_profile_of_each_simulator() {
    let mut profiles = vec![
        profile("offline", &["FlightSimulator2024.exe"], true),
        profile("online", &["FlightSimulator2024.exe"], true),
        profile("xplane", &["X-Plane.exe"], true),
    ];

    let disabled = resolve_conflicts(&mut profiles, Some("online"));

    assert_eq!(disabled, ["offline"]);
    assert_eq!(enabled_ids(&profiles), ["online", "xplane"]);
}

#[test]
fn upgrade_falls_back_to_sidebar_order_outside_the_active_group() {
    let mut profiles = vec![
        profile("xplane", &["X-Plane.exe"], true),
        profile("first", &["flightsimulator2024.EXE"], true),
        profile("second", &["FlightSimulator2024.exe"], true),
        profile("off", &["FlightSimulator2024.exe"], false),
    ];

    let disabled = resolve_conflicts(&mut profiles, Some("xplane"));

    assert_eq!(disabled, ["second"]);
    assert_eq!(enabled_ids(&profiles), ["xplane", "first"]);
}

#[test]
fn different_simulators_are_untouched() {
    let mut profiles = vec![
        profile("msfs", &["FlightSimulator.exe", "FlightSimulator2024.exe"], true),
        profile("xplane", &["X-Plane.exe"], true),
    ];

    assert!(resolve_conflicts(&mut profiles, None).is_empty());
}

#[test]
fn enabling_a_profile_disables_every_enabled_profile_sharing_a_trigger() {
    let profiles = vec![
        profile("both", &["FlightSimulator.exe", "FlightSimulator2024.exe"], true),
        profile("msfs2020", &["FlightSimulator.exe"], true),
        profile("msfs2024", &["FlightSimulator2024.exe"], true),
        profile("disabled", &["FlightSimulator.exe"], false),
        profile("xplane", &["X-Plane.exe"], true),
    ];

    assert_eq!(profiles_to_disable(&profiles, "both"), ["msfs2020", "msfs2024"]);
}

#[test]
fn a_disabled_winner_disables_nothing() {
    let profiles = vec![profile("off", &["X-Plane.exe"], false), profile("on", &["X-Plane.exe"], true)];

    assert!(profiles_to_disable(&profiles, "off").is_empty());
}

#[test]
fn disabling_switches_off_only_the_listed_profiles() {
    let mut profiles = vec![profile("a", &["A.exe"], true), profile("b", &["B.exe"], true)];
    disable(&mut profiles, &["b".to_string()]);

    assert_eq!(enabled_ids(&profiles), ["a"]);
    assert!(shares_trigger(&profile("x", &["a.EXE"], true), &profile("y", &["A"], true)));
    assert!(!shares_trigger(&profile("x", &["A.exe"], true), &profile("y", &["B.exe"], true)));
}
