use autostart::models::ProcessInfo;
use autostart::process_tracker::ProcessSample;
use autostart::processes::{
    is_running, list_unique, normalize_process_name, pids_by_name, running_pids, same_process_name,
};
use sysinfo::{ProcessRefreshKind, ProcessesToUpdate, System, UpdateKind};
use autostart::simconnect::supports_simconnect;

fn sample(pid: u32, name: &str) -> ProcessSample {
    ProcessSample { pid, parent_pid: None, name: name.into(), exe_path: None, start_time: 0 }
}

#[test]
fn normalization_ignores_case_and_exe_extension() {
    assert_eq!(normalize_process_name("FlightSimulator2024.exe"), "flightsimulator2024");
    assert_eq!(normalize_process_name("flightsimulator2024.EXE"), "flightsimulator2024");
    assert_eq!(normalize_process_name("  TextEdit "), "textedit");
}

#[test]
fn normalization_keeps_inner_dots() {
    assert_eq!(normalize_process_name("SPAD.neXt.exe"), "spad.next");
}

#[test]
fn pids_by_name_keep_the_listing_order() {
    let samples = [sample(3, "Volanta.exe"), sample(1, "explorer.exe"), sample(2, "volanta")];
    assert_eq!(pids_by_name(&samples, "VOLANTA.EXE"), vec![3, 2]);
    assert!(is_running(&samples, "Explorer"));
    assert!(!is_running(&samples, "X-Plane.exe"));
    assert_eq!(running_pids(&samples), vec![3, 1, 2]);
    assert!(same_process_name("A.exe", " a "));
}

#[test]
fn supports_both_msfs_versions_regardless_of_case() {
    assert!(supports_simconnect("FlightSimulator.exe"));
    assert!(supports_simconnect("FlightSimulator2024.exe"));
    assert!(supports_simconnect(" flightsimulator2024.EXE "));
}

#[test]
fn rejects_other_simulators() {
    assert!(!supports_simconnect("X-Plane.exe"));
    assert!(!supports_simconnect("FlightSimulatorX.exe"));
}

fn info(name: &str, exe_path: Option<&str>) -> ProcessInfo {
    ProcessInfo { name: name.into(), exe_path: exe_path.map(Into::into) }
}

#[test]
fn listing_is_sorted_and_unique() {
    let mut system = System::new();
    system.refresh_processes_specifics(
        ProcessesToUpdate::All,
        true,
        ProcessRefreshKind::nothing().with_exe(UpdateKind::OnlyIfNotSet),
    );
    let running: Vec<ProcessInfo> = system
        .processes()
        .values()
        .map(|process| ProcessInfo {
            name: process.name().to_string_lossy().into_owned(),
            exe_path: process.exe().map(|path| path.display().to_string()),
        })
        .collect();
    let processes = list_unique(running);
    let keys: Vec<String> = processes.iter().map(|p| p.name.to_lowercase()).collect();
    let mut sorted = keys.clone();
    sorted.sort();
    sorted.dedup();
    assert_eq!(keys, sorted);
}

#[test]
fn listing_keeps_the_first_of_each_name_and_drops_nameless_ones() {
    let listed = list_unique(vec![
        info("Zeta", Some("/a/zeta")),
        info("", Some("/a/nameless")),
        info("alpha", None),
        info("ZETA", Some("/b/zeta")),
        info("Beta", Some("/a/beta")),
        info("ALPHA", Some("/b/alpha")),
    ]);
    assert_eq!(
        listed,
        vec![info("alpha", None), info("Beta", Some("/a/beta")), info("Zeta", Some("/a/zeta"))]
    );
}

#[test]
fn listing_of_nothing_is_empty() {
    assert_eq!(list_unique(Vec::new()), Vec::new());
}

#[test]
fn normalization_trims_unicode_whitespace() {
    assert_eq!(normalize_process_name("\u{3000}Sim.EXE\t\n"), "sim");
    assert_eq!(normalize_process_name(" \u{2009} "), "");
}
