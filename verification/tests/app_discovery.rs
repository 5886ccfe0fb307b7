use std::collections::HashSet;

use autostart::app_discovery::{
    app_candidate, classify_dropped_path, compact, dedupe_candidates, installed_candidates,
    is_flight_sim_suggestion, is_uninstaller_exe, is_uninstaller_name, is_under_dir,
    open_candidates, parse_internet_shortcut, resolve_drops, sort_by_name, DroppedFile, FoundShortcut,
    ShortcutTarget,
};
use autostart::error::AppError;
use autostart::models::{AppCandidate, CandidateSource, DropRejection, DroppedCandidate, ExeInfo, UrlCandidate};
use autostart::process_tracker::ProcessSample;

fn candidate(name: &str, exe_path: &str) -> AppCandidate {
    AppCandidate {
        name: name.into(),
        exe_path: exe_path.into(),
        args: None,
        working_dir: None,
        process_name: "App.exe".into(),
        icon_base64: None,
        source: CandidateSource::Installed,
        suggested: false,
    }
}

fn inspected(file_name: &str) -> Result<ExeInfo, AppError> {
    let stem = file_name.trim_end_matches(".exe");
    Ok(ExeInfo { process_name: file_name.into(), product_name: stem.into(), icon_base64: None })
}

fn target(path: &str) -> ShortcutTarget {
    ShortcutTarget { target_path: path.into(), args: None, working_dir: None }
}

#[test]
fn uninstallers_are_recognized_by_shortcut_and_executable_name() {
    assert!(is_uninstaller_name("Uninstall Little Navmap"));
    assert!(is_uninstaller_name("Desinstalar App"));
    assert!(!is_uninstaller_name("Little Navmap"));
    assert!(is_uninstaller_exe("unins000.exe"));
    assert!(is_uninstaller_exe("Uninstall.exe"));
    assert!(!is_uninstaller_exe("Volanta.exe"));
}

#[test]
fn windows_folder_check_ignores_case_and_requires_a_separator() {
    let windows = Some(r"C:\Windows");
    assert!(is_under_dir(r"c:\windows\System32\notepad.exe", windows));
    assert!(!is_under_dir(r"C:\WindowsApps\app.exe", windows));
    assert!(!is_under_dir(r"C:\Tools\app.exe", windows));
    assert!(!is_under_dir(r"C:\Windows\app.exe", None));
}

#[test]
fn duplicates_keep_the_first_occurrence_ignoring_path_case() {
    let mut with_args = candidate("App (safe mode)", r"C:\App\App.exe");
    with_args.args = Some("--safe".into());
    let candidates = vec![
        candidate("App", r"C:\App\App.exe"),
        candidate("App on desktop", r"c:\app\APP.exe"),
        with_args,
    ];

    let names: Vec<String> = dedupe_candidates(candidates).into_iter().map(|candidate| candidate.name).collect();

    assert_eq!(names, ["App", "App (safe mode)"]);
}

#[test]
fn sorting_ignores_case() {
    let mut candidates = vec![candidate("volanta", "b"), candidate("Little Navmap", "a"), candidate("FSUIPC", "c")];
    sort_by_name(&mut candidates);
    let names: Vec<&str> = candidates.iter().map(|c| c.name.as_str()).collect();
    assert_eq!(names, ["FSUIPC", "Little Navmap", "volanta"]);
}

#[test]
fn sorting_keeps_the_order_of_equal_names() {
    let mut candidates = vec![candidate("b", "1"), candidate("A", "2"), candidate("a", "3"), candidate("B", "4")];
    sort_by_name(&mut candidates);
    let paths: Vec<&str> = candidates.iter().map(|c| c.exe_path.as_str()).collect();
    assert_eq!(paths, ["2", "3", "1", "4"]);
}

#[test]
fn flight_sim_tools_are_suggested() {
    assert!(is_flight_sim_suggestion("Navigraph Charts", r"C:\Navigraph\Charts.exe"));
    assert!(is_flight_sim_suggestion("Little Navmap", r"C:\Tools\app.exe"));
    assert!(is_flight_sim_suggestion("Tool", r"C:\Tools\littlenavmap.exe"));
    assert!(!is_flight_sim_suggestion("Notepad", r"C:\Tools\notepad.exe"));
    assert_eq!(compact("Little Navmap 2.0!"), "littlenavmap20");
}

#[test]
fn internet_shortcut_url_is_read_from_its_section() {
    let content = "[DEFAULT]\r\nBASEURL=https://ignored\r\n[InternetShortcut]\r\nIconIndex=0\r\nURL=https://www.simbrief.com\r\n";
    assert_eq!(parse_internet_shortcut(content).as_deref(), Some("https://www.simbrief.com"));
    assert_eq!(parse_internet_shortcut("URL=https://no.section"), None);
    assert_eq!(parse_internet_shortcut("[InternetShortcut]\nURL=\n"), None);
}

#[test]
fn dropped_executable_becomes_an_app_candidate() {
    let dropped = classify_dropped_path("/drops/vPilot.exe", None, &inspected("vPilot.exe"), None).expect("accepted");

    let DroppedCandidate::App(app) = dropped else {
        panic!("expected app candidate");
    };
    assert_eq!(app.name, "vPilot");
    assert_eq!(app.process_name, "vPilot.exe");
    assert_eq!(app.source, CandidateSource::Dropped);
    assert!(app.suggested);
}

#[test]
fn dropped_shortcut_keeps_its_name_arguments_and_working_folder() {
    let resolved = ShortcutTarget {
        target_path: "/drops/App/App.exe".into(),
        args: Some("--minimized".into()),
        working_dir: Some("/drops/App".into()),
    };

    let DroppedCandidate::App(app) =
        classify_dropped_path("/drops/Navigraph Charts.lnk", Some(resolved), &inspected("App.exe"), None).expect("accepted")
    else {
        panic!("expected app candidate");
    };

    assert_eq!(app.name, "Navigraph Charts");
    assert_eq!(app.exe_path, "/drops/App/App.exe");
    assert_eq!(app.args.as_deref(), Some("--minimized"));
    assert_eq!(app.working_dir.as_deref(), Some("/drops/App"));
}

#[test]
fn dropped_web_shortcut_becomes_a_url_candidate() {
    let content = Some("[InternetShortcut]\nURL=https://www.simbrief.com\n".to_string());
    let dropped = classify_dropped_path("/drops/SimBrief.url", None, &inspected("SimBrief.exe"), content).expect("accepted");

    assert_eq!(
        dropped,
        DroppedCandidate::Url(UrlCandidate { name: "SimBrief".into(), url: "https://www.simbrief.com".into() })
    );
}

#[test]
fn unsupported_drops_are_rejected_with_a_reason() {
    let missing = || Err(AppError::ExecutableNotFound("missing".into()));
    let steam = Some("[InternetShortcut]\nURL=steam://rungameid/123\n".to_string());

    assert_eq!(classify_dropped_path("/drops/manual.pdf", None, &missing(), None), Err(DropRejection::UnsupportedFile));
    assert_eq!(classify_dropped_path("/drops", None, &missing(), None), Err(DropRejection::UnsupportedFile));
    assert_eq!(classify_dropped_path("/drops/Game.url", None, &missing(), steam), Err(DropRejection::UnsupportedUrl));
    assert_eq!(
        classify_dropped_path("/drops/Folder.lnk", Some(target("/drops")), &missing(), None),
        Err(DropRejection::UnsupportedShortcut)
    );
    assert_eq!(classify_dropped_path("/drops/Folder.lnk", None, &missing(), None), Err(DropRejection::UnsupportedShortcut));
    assert_eq!(
        classify_dropped_path("/drops/Broken.lnk", Some(target("/drops/Missing.exe")), &missing(), None),
        Err(DropRejection::ExecutableNotFound)
    );
    assert_eq!(classify_dropped_path("/drops/Gone.exe", None, &missing(), None), Err(DropRejection::ExecutableNotFound));
    assert_eq!(
        classify_dropped_path("/drops/Odd.exe", None, &Err(AppError::Validation("not an exe".into())), None),
        Err(DropRejection::UnsupportedFile)
    );
}

#[test]
fn blank_shortcut_names_and_arguments_fall_back() {
    let app = app_candidate("/apps/Tool.exe", Some("  ".into()), Some(" ".into()), None, CandidateSource::Installed, &inspected("Tool.exe"))
        .expect("accepted");
    assert_eq!(app.name, "Tool");
    assert_eq!(app.args, None);
}

#[test]
fn installed_list_filters_uninstallers_system_apps_and_duplicates() {
    let app = "/root/Tools/littlenavmap.exe";
    let found = |shortcut: &str, exe: &str, file: &str| FoundShortcut {
        path: shortcut.into(),
        target: Some(target(exe)),
        inspected: inspected(file),
    };
    let shortcuts = [
        found("/root/Little Navmap.lnk", app, "littlenavmap.exe"),
        found("/root/LNM on desktop.lnk", app, "littlenavmap.exe"),
        found("/root/Uninstall Little Navmap.lnk", app, "littlenavmap.exe"),
        found("/root/Remove.lnk", "/root/Tools/unins000.exe", "unins000.exe"),
        found("/root/Notepad.lnk", "/root/Windows/notepad.exe", "notepad.exe"),
    ];

    let installed = installed_candidates(&shortcuts, Some("/root/Windows"));

    assert_eq!(installed.len(), 1);
    assert_eq!(installed[0].name, "Little Navmap");
    assert_eq!(installed[0].source, CandidateSource::Installed);
    assert!(installed[0].suggested);
}

#[test]
fn open_list_keeps_visible_apps_once_with_their_running_name() {
    let app = "/root/Tools/Volanta.exe";
    let system = "/root/Windows/explorer.exe";
    let sample = |pid: u32, name: &str, exe_path: Option<&str>| ProcessSample {
        pid,
        parent_pid: None,
        name: name.into(),
        exe_path: exe_path.map(str::to_owned),
        start_time: 0,
    };
    let samples = [
        sample(1, "Volanta.exe", Some(app)),
        sample(2, "Volanta.exe", Some(app)),
        sample(3, "explorer.exe", Some(system)),
        sample(4, "protected.exe", None),
        sample(5, "background.exe", Some(app)),
        sample(6, "autostart.exe", Some(app)),
    ];
    let results: Vec<Result<ExeInfo, AppError>> = samples
        .iter()
        .map(|sample| match &sample.exe_path {
            Some(path) => inspected(path.rsplit('/').next().unwrap_or_default()),
            None => Err(AppError::ExecutableNotFound(String::new())),
        })
        .collect();
    let visible = HashSet::from([1, 2, 3, 4, 6]);

    let open = open_candidates(&samples, &results, &visible, 6, Some("/root/Windows"));

    assert_eq!(open.len(), 1);
    assert_eq!(open[0].name, "Volanta");
    assert_eq!(open[0].process_name, "Volanta.exe");
    assert_eq!(open[0].source, CandidateSource::Open);
}

#[test]
fn every_dropped_path_gets_one_result_in_drop_order() {
    let files = vec![
        DroppedFile { path: "/drops/notes.txt".into(), resolved: None, inspected: Err(AppError::Unsupported("file".into())), content: None },
        DroppedFile { path: "/drops/vPilot.exe".into(), resolved: None, inspected: inspected("vPilot.exe"), content: None },
        DroppedFile { path: "/drops/Broken.lnk".into(), resolved: None, inspected: Err(AppError::Unsupported("link".into())), content: None },
        DroppedFile {
            path: "/drops/SimBrief.url".into(),
            resolved: None,
            inspected: Err(AppError::Unsupported("link".into())),
            content: Some("[InternetShortcut]\r\nURL=https://www.simbrief.com\r\n".into()),
        },
    ];
    let resolution = resolve_drops(files);
    assert_eq!(resolution.candidates.len(), 2);
    assert!(matches!(&resolution.candidates[0], DroppedCandidate::App(app) if app.exe_path == "/drops/vPilot.exe"));
    assert!(matches!(&resolution.candidates[1], DroppedCandidate::Url(url) if url.url == "https://www.simbrief.com"));
    let rejected: Vec<(&str, DropRejection)> =
        resolution.rejected.iter().map(|drop| (drop.path.as_str(), drop.reason)).collect();
    assert_eq!(
        rejected,
        vec![("/drops/notes.txt", DropRejection::UnsupportedFile), ("/drops/Broken.lnk", DropRejection::UnsupportedShortcut)]
    );
}
