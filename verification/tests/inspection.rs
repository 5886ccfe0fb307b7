use autostart::error::AppError;
use autostart::exe_inspection::inspect_exe;
use autostart::models::{LaunchItem, ProcessNameMode, UrlItem};
use autostart::paths::{file_name, file_stem, folder_of, has_exe_extension, lowercase_extension};
use autostart::storage::{example_profile, infer_process_name_mode, profiles_or_example};

#[test]
fn missing_file_is_reported() {
    let error = inspect_exe("/definitely/missing/app.exe", false, false, None, None).unwrap_err();
    assert!(matches!(error, AppError::ExecutableNotFound(_)));
}

#[test]
fn name_falls_back_to_file_name_without_metadata() {
    let info = inspect_exe("/tmp/apps/Navigraph Charts.exe", true, false, None, None).expect("inspect");

    assert_eq!(info.process_name, "Navigraph Charts.exe");
    assert_eq!(info.product_name, "Navigraph Charts");
}

#[test]
fn product_name_wins_and_windows_requires_an_exe() {
    let info = inspect_exe("/tmp/apps/nav.exe", true, true, Some("Navigraph".into()), Some("icon".into())).expect("inspect");
    assert_eq!(info.product_name, "Navigraph");
    assert_eq!(info.icon_base64.as_deref(), Some("icon"));

    let error = inspect_exe("/tmp/apps/readme.txt", true, true, None, None).unwrap_err();
    assert!(matches!(error, AppError::Validation(message) if message == "/tmp/apps/readme.txt is not an .exe file"));
}

#[test]
fn path_parts_follow_the_platform_rules() {
    assert_eq!(file_name("/apps/Volanta/Volanta.exe"), "Volanta.exe");
    assert_eq!(file_stem("/apps/Volanta/Volanta.exe"), "Volanta");
    assert_eq!(folder_of("/apps/Volanta/Volanta.exe"), "/apps/Volanta");
    assert_eq!(folder_of(""), "");
    assert_eq!(lowercase_extension("/apps/A.EXE").as_deref(), Some("exe"));
    assert!(has_exe_extension("/apps/A.ExE"));
    assert!(!has_exe_extension("/apps/A.txt"));
}

#[test]
fn items_from_v010_keep_user_typed_process_names_as_manual() {
    assert_eq!(infer_process_name_mode(r"C:\Apps\Spad.exe", "SPAD.exe"), ProcessNameMode::Auto);
    assert_eq!(infer_process_name_mode(r"C:\Apps\Launcher.exe", "Volanta.exe"), ProcessNameMode::Manual);
    assert_eq!(infer_process_name_mode("C:/Apps/Volanta", "volanta.exe"), ProcessNameMode::Auto);
}

#[test]
fn missing_files_yield_example_profile_and_default_settings() {
    let profiles = profiles_or_example(Vec::new());
    assert_eq!(profiles.len(), 1);
    assert_eq!(profiles[0].triggers[0].process_name, "FlightSimulator2024.exe");

    let kept = profiles_or_example(vec![example_profile(), example_profile()]);
    assert_eq!(kept.len(), 2);
}

#[test]
fn example_profile_opens_navigraph_charts_disabled() {
    let profile = example_profile();
    assert!(profile.enabled);
    assert_eq!(profile.name, "MSFS 2024");
    assert!(matches!(&profile.items[0], LaunchItem::Url(UrlItem { url, enabled: false, .. }) if url == "https://charts.navigraph.com"));
    assert_ne!(profile.id, example_profile().id);
}

fn url_item(only_for_triggers: Vec<String>) -> LaunchItem {
    LaunchItem::Url(UrlItem {
        id: "1".into(),
        name: "Site".into(),
        url: "https://a.com".into(),
        delay_ms: 800,
        enabled: true,
        only_for_triggers,
    })
}

#[test]
fn item_applies_to_its_listed_triggers_ignoring_case() {
    let item = url_item(vec!["FlightSimulator2024.exe".into()]);

    assert!(item.applies_to("flightsimulator2024.EXE"));
    assert!(!item.applies_to("FlightSimulator.exe"));
}

#[test]
fn unrestricted_item_applies_to_every_trigger() {
    let item = url_item(Vec::new());

    assert!(item.applies_to("X-Plane.exe"));
}

#[test]
fn icon_pixels_turn_from_bgra_to_rgba() {
    let mut pixels = vec![1, 2, 3, 4, 5, 6, 7, 0, 9];
    autostart::exe_inspection::bgra_to_rgba(&mut pixels);
    assert_eq!(pixels, vec![3, 2, 1, 4, 7, 6, 5, 0, 9]);
}

#[test]
fn icons_without_alpha_become_opaque() {
    let mut pixels = vec![10, 20, 30, 0, 40, 50, 60, 0];
    autostart::exe_inspection::bgra_to_rgba(&mut pixels);
    assert_eq!(pixels, vec![30, 20, 10, 255, 60, 50, 40, 255]);
    let mut empty: Vec<u8> = Vec::new();
    autostart::exe_inspection::bgra_to_rgba(&mut empty);
    assert!(empty.is_empty());
}
