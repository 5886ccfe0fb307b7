//! Which profile a running simulator belongs to, and how long the close delay lasts in polls.
use vstd::prelude::*;

use crate::models::{Profile, Trigger, TriggerView};

verus! {

/// The probe answered `answer` for a process name: some call with that text could return it.
pub open spec fn answered<F: Fn(&str) -> bool>(is_running: F, name: Seq<char>, answer: bool) -> bool {
    exists|text: &str| text@ == name && #[trigger] call_ensures(is_running, (text,), answer)
}

/// Every trigger of the profile was probed and reported as not running.
pub open spec fn none_running<F: Fn(&str) -> bool>(is_running: F, triggers: Seq<TriggerView>) -> bool {
    forall|k: int| 0 <= k < triggers.len() ==> answered(is_running, #[trigger] triggers[k].process_name, false)
}

/// Probes the triggers in order and returns the first one reported running.
fn first_running_trigger<F: Fn(&str) -> bool>(triggers: &[Trigger], is_running: &F) -> (found: Option<usize>)
    requires
        forall|text: &str| is_running.requires((text,)),
    ensures
        match found {
            Some(k) => k < triggers@.len() && answered(*is_running, triggers@[k as int]@.process_name, true)
                && none_running(*is_running, triggers.deep_view().take(k as int)),
            None => none_running(*is_running, triggers.deep_view()),
        },
{
    let mut k: usize = 0;
    while k < triggers.len()
        invariant
            forall|text: &str| is_running.requires((text,)),
            k <= triggers@.len(),
            none_running(*is_running, triggers.deep_view().take(k as int)),
        decreases triggers@.len() - k,
    {
        let name = triggers[k].process_name.as_str();
        let running = is_running(name);
        assert(call_ensures(*is_running, (name,), running));
        assert(triggers.deep_view()[k as int] == triggers@[k as int]@);
        if running {
            return Some(k);
        }
        assert forall|j: int| 0 <= j < k + 1 implies answered(
            *is_running,
            #[trigger] triggers.deep_view().take(k + 1)[j].process_name,
            false,
        ) by {
            if j < k {
                assert(triggers.deep_view().take(k + 1)[j] == triggers.deep_view().take(k as int)[j]);
            }
        }
        k = k + 1;
    }
    assert(triggers.deep_view().take(k as int) =~= triggers.deep_view());
    None
}

/// The first enabled profile, in sidebar order, with one of its triggers running, together
/// with the first of its triggers reported running.
pub fn first_running_profile<F: Fn(&str) -> bool>(profiles: &[Profile], is_running: F) -> (found:
    Option<(Profile, Trigger)>)
    requires
        forall|text: &str| is_running.requires((text,)),
    ensures
        match found {
            Some(pair) => (exists|i: int|
                0 <= i < profiles@.len() && #[trigger] profiles@[i]@ == pair.0@ && pair.0@.enabled
                    && forall|j: int| 0 <= j < i && (#[trigger] profiles@[j]).enabled ==> none_running(
                        is_running,
                        profiles@[j]@.triggers,
                    )) && (exists|k: int|
                0 <= k < pair.0@.triggers.len() && #[trigger] pair.0@.triggers[k] == pair.1@
                    && answered(is_running, pair.1@.process_name, true)
                    && none_running(is_running, pair.0@.triggers.take(k))),
            None => forall|j: int|
                0 <= j < profiles@.len() && (#[trigger] profiles@[j]).enabled ==> none_running(
                    is_running,
                    profiles@[j]@.triggers,
                ),
        },
{
    let mut i: usize = 0;
    while i < profiles.len()
        invariant
            forall|text: &str| is_running.requires((text,)),
            i <= profiles@.len(),
            forall|j: int|
                0 <= j < i && (#[trigger] profiles@[j]).enabled ==> none_running(
                    is_running,
                    profiles@[j]@.triggers,
                ),
        decreases profiles@.len() - i,
    {
        let profile = &profiles[i];
        if profile.enabled {
            if let Some(k) = first_running_trigger(profile.triggers.as_slice(), &is_running) {
                let copy = profile.clone();
                let trigger = profile.triggers[k].clone();
                assert(profile.triggers.deep_view()[k as int] == profile.triggers@[k as int]@);
                assert(profiles@[i as int]@ == copy@);
                assert(copy@.triggers[k as int] == trigger@);
                let ghost cv = copy@;
                let ghost tv = trigger@;
                let result = Some((copy, trigger));
                assert(result.unwrap().0@ == cv);
                assert(result.unwrap().1@ == tv);
                return result;
            }
        }
        i = i + 1;
    }
    None
}

pub fn any_trigger_running<F: Fn(&str) -> bool>(profile: &Profile, is_running: F) -> (running: bool)
    requires
        forall|text: &str| is_running.requires((text,)),
    ensures
        running ==> exists|k: int|
            0 <= k < profile@.triggers.len() && answered(is_running, #[trigger] profile@.triggers[k].process_name, true),
        !running ==> none_running(is_running, profile@.triggers),
{
    match first_running_trigger(profile.triggers.as_slice(), &is_running) {
        Some(k) => {
            assert(profile.triggers.deep_view()[k as int] == profile.triggers@[k as int]@);
            assert(answered(is_running, profile@.triggers[k as int].process_name, true));
            true
        },
        None => false,
    }
}

/// While a flight starts, only the simulator the pilot picked counts as its arrival.
pub fn session_simulator_running<F: Fn(&str) -> bool>(
    profile: &Profile,
    awaited: Option<&Trigger>,
    is_running: F,
) -> (running: bool)
    requires
        forall|text: &str| is_running.requires((text,)),
    ensures
        match awaited {
            Some(trigger) => answered(is_running, trigger@.process_name, running),
            None => (running ==> exists|k: int|
                0 <= k < profile@.triggers.len() && answered(
                    is_running,
                    #[trigger] profile@.triggers[k].process_name,
                    true,
                )) && (!running ==> none_running(is_running, profile@.triggers)),
        },
{
    match awaited {
        Some(trigger) => {
            let name = trigger.process_name.as_str();
            let running = is_running(name);
            assert(call_ensures(is_running, (name,), running));
            running
        },
        None => any_trigger_running(profile, is_running),
    }
}

/// What `Duration::as_millis` returns for a duration.
pub uninterp spec fn duration_millis(duration: std::time::Duration) -> u128;

/// Calls `Duration::as_millis`; the result is named `duration_millis`.
#[verifier::external_body]
pub(crate) fn as_millis(duration: std::time::Duration) -> (ms: u128)
    ensures
        ms == duration_millis(duration),
{
    duration.as_millis()
}

/// The close delay in whole polls, rounded up; a poll of 0 ms counts as 1 ms and one
/// longer than `u32::MAX` ms as `u32::MAX`.
pub open spec fn delay_ticks(close_delay_ms: u32, poll_ms: u128) -> u32 {
    let poll: int = if poll_ms > u32::MAX as u128 {
        u32::MAX as int
    } else if poll_ms == 0 {
        1
    } else {
        poll_ms as int
    };
    ((close_delay_ms as int + poll - 1) / poll) as u32
}

/// The close delay counted in polls of the given length.
pub fn ticks_for(close_delay_ms: u32, poll_ms: u128) -> (ticks: u32)
    ensures
        ticks == delay_ticks(close_delay_ms, poll_ms),
{
    let poll: u32 = if poll_ms > u32::MAX as u128 {
        u32::MAX
    } else if poll_ms == 0 {
        1
    } else {
        poll_ms as u32
    };
    let quotient = close_delay_ms / poll;
    if close_delay_ms % poll == 0 {
        assert((close_delay_ms as int + poll - 1) / (poll as int) == quotient) by (nonlinear_arith)
            requires
                poll >= 1,
                quotient == close_delay_ms / poll,
                close_delay_ms % poll == 0,
        ;
        quotient
    } else {
        assert((close_delay_ms as int + poll - 1) / (poll as int) == quotient + 1) by (nonlinear_arith)
            requires
                poll >= 1,
                quotient == close_delay_ms / poll,
                close_delay_ms % poll != 0,
        ;
        assert(quotient < u32::MAX) by (nonlinear_arith)
            requires
                poll >= 1,
                quotient == close_delay_ms / poll,
                close_delay_ms % poll != 0,
        ;
        quotient + 1
    }
}

/// `close_delay_ms` counted in polls of `poll_interval`, rounded up to whole polls.
pub fn close_delay_ticks(close_delay_ms: u32, poll_interval: std::time::Duration) -> (ticks: u32)
    ensures
        ticks == delay_ticks(close_delay_ms, duration_millis(poll_interval)),
{
    ticks_for(close_delay_ms, as_millis(poll_interval))
}

} // verus!
