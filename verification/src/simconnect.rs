//! Which simulators offer SimConnect, so that items can wait for it.
use vstd::prelude::*;

use crate::text::{lowercase, same_text, to_lowercase, trim, trimmed};

verus! {

/// MSFS 2024 can take several minutes to reach the main menu on modest machines: ten minutes.
pub const WAIT_TIMEOUT_SECS: u64 = 600;

/// The two MSFS executables, after trimming and lowercasing.
pub open spec fn supports_simconnect_spec(trigger_process_name: Seq<char>) -> bool {
    let name = lowercase(trimmed(trigger_process_name));
    name == "flightsimulator.exe"@ || name == "flightsimulator2024.exe"@
}

pub fn supports_simconnect(trigger_process_name: &str) -> (supported: bool)
    ensures
        supported == supports_simconnect_spec(trigger_process_name@),
{
    let normalized = to_lowercase(trim(trigger_process_name).as_str());
    same_text(normalized.as_str(), "flightsimulator.exe") || same_text(
        normalized.as_str(),
        "flightsimulator2024.exe",
    )
}

} // verus!
