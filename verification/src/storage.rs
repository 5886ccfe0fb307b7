//! What the saved files hold and how older files are read: the sample profile for a first
//! start, and the process-name mode of items saved before it existed.
use vstd::prelude::*;

use crate::models::{
    LaunchItem, LaunchItemView, ProcessNameMode, Profile, ProfileView, Trigger, TriggerView, UrlItem,
};
use crate::processes::{normalize_process_name, normalized};
use crate::text::{chars_of, owned, same_text, string_of};
use crate::validation::parses_as_uuid;

verus! {

pub const SCHEMA_VERSION: u32 = 1;
pub const PROFILES_FILE: &'static str = "profiles.json";
pub const SETTINGS_FILE: &'static str = "settings.json";
pub const LAST_SESSION_FILE: &'static str = "last-session.json";

/// Calls `uuid::Uuid::new_v4` and writes it out hyphenated: a random id, which
/// `Uuid::parse_str` reads back.
#[verifier::external_body]
fn new_id() -> (id: String)
    ensures
        parses_as_uuid(id@),
{
    uuid::Uuid::new_v4().to_string()
}

/// The profile a first start offers: MSFS 2024 as trigger and a disabled link to Navigraph
/// Charts, with fresh ids.
pub open spec fn is_example_profile(profile: ProfileView) -> bool {
    &&& parses_as_uuid(profile.id)
    &&& profile.name == "MSFS 2024"@
    &&& profile.triggers == seq![
        TriggerView {
            process_name: "FlightSimulator2024.exe"@,
            label: "MSFS 2024"@,
            launch_target: None,
        },
    ]
    &&& profile.items.len() == 1
    &&& profile.items[0] matches LaunchItemView::Url(item) && parses_as_uuid(item.id) && item.name
        == "Navigraph Charts (web)"@ && item.url == "https://charts.navigraph.com"@ && item.delay_ms
        == 0 && item.only_for_triggers.len() == 0 && !item.enabled
    &&& profile.enabled
}

pub fn example_profile() -> (profile: Profile)
    ensures
        is_example_profile(profile@),
{
    let item = UrlItem {
        id: new_id(),
        name: owned("Navigraph Charts (web)"),
        url: owned("https://charts.navigraph.com"),
        delay_ms: 0,
        only_for_triggers: Vec::new(),
        enabled: false,
    };
    let trigger = Trigger {
        process_name: owned("FlightSimulator2024.exe"),
        label: owned("MSFS 2024"),
        launch_target: None,
    };
    let mut triggers: Vec<Trigger> = Vec::new();
    triggers.push(trigger);
    let mut items: Vec<LaunchItem> = Vec::new();
    items.push(LaunchItem::Url(item));
    let profile = Profile { id: new_id(), name: owned("MSFS 2024"), triggers, items, enabled: true };
    assert(profile@.triggers =~= seq![
        TriggerView {
            process_name: "FlightSimulator2024.exe"@,
            label: "MSFS 2024"@,
            launch_target: None,
        },
    ]);
    profile
}

/// A file without profiles starts with the sample profile.
pub fn profiles_or_example(profiles: Vec<Profile>) -> (loaded: Vec<Profile>)
    ensures
        profiles@.len() > 0 ==> loaded.deep_view() == profiles.deep_view(),
        profiles@.len() == 0 ==> loaded@.len() == 1 && is_example_profile(loaded.deep_view()[0]),
{
    if profiles.len() > 0 {
        return profiles;
    }
    let mut loaded: Vec<Profile> = Vec::new();
    loaded.push(example_profile());
    loaded
}

/// What follows the last `\` or `/` of a path: the executable's file name.
pub open spec fn last_segment(path: Seq<char>) -> Seq<char>
    decreases path.len(),
{
    if path.len() == 0 {
        path
    } else if path.last() == '\\' || path.last() == '/' {
        Seq::empty()
    } else {
        last_segment(path.drop_last()).push(path.last())
    }
}

/// Items saved before `processNameMode` existed: a process name that differs from the
/// executable was typed by the pilot, so learning must not overwrite it.
pub open spec fn inferred_mode(exe_path: Seq<char>, process_name: Seq<char>) -> ProcessNameMode {
    if normalized(process_name) != normalized(last_segment(exe_path)) {
        ProcessNameMode::Manual
    } else {
        ProcessNameMode::Auto
    }
}

fn executable_of(exe_path: &str) -> (name: String)
    ensures
        name@ == last_segment(exe_path@),
{
    let chars = chars_of(exe_path);
    let mut start: usize = 0;
    let mut i: usize = 0;
    while i < chars.len()
        invariant
            chars@ == exe_path@,
            start <= i <= chars@.len(),
            last_segment(chars@.take(i as int)) == chars@.subrange(start as int, i as int),
        decreases chars@.len() - i,
    {
        assert(chars@.take(i + 1).drop_last() =~= chars@.take(i as int));
        assert(chars@.take(i + 1).last() == chars@[i as int]);
        if chars[i] == '\\' || chars[i] == '/' {
            start = i + 1;
            assert(chars@.subrange(start as int, i + 1) =~= Seq::<char>::empty());
        } else {
            assert(chars@.subrange(start as int, i + 1) =~= chars@.subrange(start as int, i as int).push(
                chars@[i as int],
            ));
        }
        i = i + 1;
    }
    assert(chars@.take(i as int) =~= chars@);
    let mut segment: Vec<char> = Vec::new();
    let mut k: usize = start;
    while k < chars.len()
        invariant
            start <= k <= chars@.len(),
            segment@ == chars@.subrange(start as int, k as int),
        decreases chars@.len() - k,
    {
        segment.push(chars[k]);
        k = k + 1;
        assert(segment@ =~= chars@.subrange(start as int, k as int));
    }
    string_of(segment.as_slice())
}

/// The process-name mode of an item saved before the mode existed.
pub fn infer_process_name_mode(exe_path: &str, process_name: &str) -> (mode: ProcessNameMode)
    ensures
        mode == inferred_mode(exe_path@, process_name@),
{
    let executable = executable_of(exe_path);
    let typed = normalize_process_name(process_name);
    let derived = normalize_process_name(executable.as_str());
    if same_text(typed.as_str(), derived.as_str()) {
        ProcessNameMode::Auto
    } else {
        ProcessNameMode::Manual
    }
}

} // verus!
