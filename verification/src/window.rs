//! When the main window shows at startup.
use vstd::prelude::*;

use crate::launch_args::LaunchArgs;
use crate::models::Settings;

verus! {

pub const MAIN_WINDOW: &'static str = "main";

/// Onboarding and an elevated relaunch always show the window; otherwise it stays hidden when
/// the settings or the command line ask for a minimized start.
pub open spec fn shows_on_startup(settings: Settings, args: LaunchArgs) -> bool {
    if !settings.onboarding_completed || args.previous_instance_pid is Some {
        true
    } else {
        !settings.start_minimized && !args.minimized
    }
}

pub fn should_show_on_startup(settings: &Settings, args: &LaunchArgs) -> (show: bool)
    ensures
        show == shows_on_startup(*settings, *args),
{
    if !settings.onboarding_completed || args.previous_instance_pid.is_some() {
        return true;
    }
    !settings.start_minimized && !args.minimized
}

} // verus!
