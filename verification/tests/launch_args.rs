use autostart::launch_args::{wait_for_pid_args, LaunchArgs, MINIMIZED_FLAG};
use autostart::models::Settings;
use autostart::window::should_show_on_startup;

fn parse(args: &[&str]) -> LaunchArgs {
    LaunchArgs::parse(args.iter().map(|arg| (*arg).to_owned()).collect())
}

#[test]
fn no_args_means_a_normal_start() {
    assert_eq!(parse(&[]), LaunchArgs::default());
}

#[test]
fn detects_minimized_flag() {
    assert!(parse(&["--minimized"]).minimized);
}

#[test]
fn reads_previous_instance_pid() {
    let args = parse(&["--wait-for-pid", "4242"]);
    assert_eq!(args.previous_instance_pid, Some(4242));
    assert!(!args.minimized);
}

#[test]
fn ignores_invalid_pid() {
    assert_eq!(parse(&["--wait-for-pid", "abc"]).previous_instance_pid, None);
}

#[test]
fn wait_for_pid_args_round_trip() {
    let args = LaunchArgs::parse(wait_for_pid_args(7).split(' ').map(str::to_owned).collect());
    assert_eq!(args.previous_instance_pid, Some(7));
}

#[test]
fn pid_flag_at_the_end_or_out_of_range_gives_no_pid() {
    assert_eq!(parse(&["--wait-for-pid"]).previous_instance_pid, None);
    assert_eq!(parse(&["--wait-for-pid", "4294967296"]).previous_instance_pid, None);
    assert_eq!(parse(&["--wait-for-pid", "+12", "--minimized"]), LaunchArgs { minimized: true, previous_instance_pid: Some(12) });
    assert_eq!(parse(&["--other", MINIMIZED_FLAG]).minimized, true);
    assert_eq!(wait_for_pid_args(4242), "--wait-for-pid 4242");
}

fn settings(onboarding_completed: bool, start_minimized: bool) -> Settings {
    Settings { onboarding_completed, start_minimized, ..Settings::default() }
}

#[test]
fn onboarding_always_shows_the_window() {
    let args = LaunchArgs { minimized: true, ..LaunchArgs::default() };
    assert!(should_show_on_startup(&settings(false, true), &args));
}

#[test]
fn start_minimized_keeps_the_window_hidden() {
    assert!(!should_show_on_startup(&settings(true, true), &LaunchArgs::default()));
}

#[test]
fn minimized_flag_keeps_the_window_hidden() {
    let args = LaunchArgs { minimized: true, ..LaunchArgs::default() };
    assert!(!should_show_on_startup(&settings(true, false), &args));
}

#[test]
fn regular_start_shows_the_window() {
    assert!(should_show_on_startup(&settings(true, false), &LaunchArgs::default()));
}

#[test]
fn elevated_relaunch_shows_the_window() {
    let args = LaunchArgs { previous_instance_pid: Some(1), ..LaunchArgs::default() };
    assert!(should_show_on_startup(&settings(true, true), &args));
}

#[test]
fn pids_read_like_unsigned_integers() {
    assert_eq!(parse(&["--wait-for-pid", "+42"]).previous_instance_pid, Some(42));
    assert_eq!(parse(&["--wait-for-pid", "4294967295"]).previous_instance_pid, Some(u32::MAX));
    assert_eq!(parse(&["--wait-for-pid", "4294967296"]).previous_instance_pid, None);
    assert_eq!(parse(&["--wait-for-pid", "12a"]).previous_instance_pid, None);
    assert_eq!(parse(&["--wait-for-pid", "+"]).previous_instance_pid, None);
    assert_eq!(parse(&["--wait-for-pid", ""]).previous_instance_pid, None);
    assert_eq!(parse(&["--wait-for-pid", "-1"]).previous_instance_pid, None);
}
