use autostart::models::{Language, MonitorState};
use autostart::storage::example_profile;
use autostart::tray::{flight_starts, has_session, labels, profile_toggles, tooltip_text, watching_text, FlightStart, ProfileToggle};

#[test]
fn tooltip_names_profile_and_state() {
    assert_eq!(
        tooltip_text(&labels(Language::PtBr), "MSFS 2024", MonitorState::SimRunning),
        "AutoStart · MSFS 2024 · Simulador em execução"
    );
}

#[test]
fn watching_text_counts_profiles_in_both_languages() {
    assert_eq!(watching_text(&labels(Language::PtBr), 1), "1 perfil monitorado");
    assert_eq!(watching_text(&labels(Language::PtBr), 2), "2 perfis monitorados");
    assert_eq!(watching_text(&labels(Language::En), 1), "Watching 1 profile");
    assert_eq!(watching_text(&labels(Language::En), 0), "Watching 0 profiles");
}

#[test]
fn tooltip_shows_close_pending() {
    assert_eq!(
        tooltip_text(&labels(Language::En), "MSFS 2024", MonitorState::ClosePending),
        "AutoStart · MSFS 2024 · Closing apps soon"
    );
}

#[test]
fn tooltip_shows_the_simulator_starting() {
    assert_eq!(
        tooltip_text(&labels(Language::En), "MSFS", MonitorState::SimStarting),
        "AutoStart · MSFS · Starting simulator"
    );
    assert!(has_session(MonitorState::SimStarting));
}

#[test]
fn flight_starts_list_only_simulators_with_a_start_target() {
    let mut msfs = example_profile();
    msfs.name = "MSFS".into();
    msfs.triggers[0].launch_target = Some("steam://rungameid/2537590".into());
    let mut xplane = example_profile();
    xplane.triggers[0].process_name = "X-Plane.exe".into();

    let starts = flight_starts(&[msfs.clone(), xplane]);

    assert_eq!(
        starts,
        [FlightStart {
            menu_id: format!("flight:{}:FlightSimulator2024.exe", msfs.id),
            label: "MSFS — MSFS 2024".into(),
        }]
    );
}

#[test]
fn tooltip_follows_language() {
    assert_eq!(
        tooltip_text(&labels(Language::En), "X-Plane 12", MonitorState::Paused),
        "AutoStart · X-Plane 12 · Paused"
    );
}

#[test]
fn every_label_of_both_languages() {
    let en = labels(Language::En);
    let en_texts = [
        en.start_flight, en.cancel_start, en.profiles, en.pause, en.resume, en.close_now, en.keep_apps, en.open,
        en.quit, en.watching_one, en.watching_many_before, en.watching_many_after, en.idle, en.sim_starting,
        en.sim_running, en.close_pending, en.closing, en.paused,
    ];
    assert_eq!(
        en_texts,
        [
            "Start flight", "Cancel simulator start", "Profiles", "Pause monitoring", "Resume monitoring",
            "Close apps now", "Keep apps open", "Open AutoStart", "Quit", "Watching 1 profile", "Watching ",
            " profiles", "Waiting for simulator", "Starting simulator", "Simulator running", "Closing apps soon",
            "Closing apps", "Paused",
        ]
    );
    let pt = labels(Language::PtBr);
    let pt_texts = [
        pt.start_flight, pt.cancel_start, pt.profiles, pt.pause, pt.resume, pt.close_now, pt.keep_apps, pt.open,
        pt.quit, pt.watching_one, pt.watching_many_before, pt.watching_many_after, pt.idle, pt.sim_starting,
        pt.sim_running, pt.close_pending, pt.closing, pt.paused,
    ];
    assert_eq!(
        pt_texts,
        [
            "Iniciar voo", "Cancelar início do simulador", "Perfis", "Pausar monitoramento",
            "Retomar monitoramento", "Fechar apps agora", "Manter apps abertos", "Abrir AutoStart", "Sair",
            "1 perfil monitorado", "", " perfis monitorados", "Aguardando simulador", "Iniciando simulador",
            "Simulador em execução", "Fechando apps em breve", "Fechando apps", "Pausado",
        ]
    );
}

#[test]
fn the_profiles_submenu_checks_enabled_profiles() {
    let mut off = example_profile();
    off.id = "b".into();
    off.name = "Offline".into();
    off.enabled = false;
    let mut on = example_profile();
    on.id = "a".into();
    on.name = "Online".into();
    on.enabled = true;
    assert_eq!(
        profile_toggles(&[on, off]),
        vec![
            ProfileToggle { menu_id: "profile:a".into(), name: "Online".into(), checked: true },
            ProfileToggle { menu_id: "profile:b".into(), name: "Offline".into(), checked: false },
        ]
    );
}
