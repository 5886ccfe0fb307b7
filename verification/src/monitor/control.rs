//! The monitor's decisions between polls and commands: what a poll saw, whether a flight or a
//! test may start, and with which settings a session closes.
use vstd::prelude::*;

use crate::error::AppError;
use crate::models::{Profile, ProfileView, Settings, Trigger, TriggerView};
use crate::monitor::detection::{
    answered, first_running_profile, none_running, session_simulator_running,
};
use crate::monitor::session::{Session, StartMode, StartModeView};
use crate::monitor::state_machine::{is_session_state, Input, State};
use crate::processes::{normalized, same_process_name};
use crate::state::{index_of_id, AppState};

verus! {

/// The monitor polls the process list every two seconds.
pub const POLL_INTERVAL_MS: u64 = 2_000;

/// The position of the first trigger with that process name, in any case or form.
pub open spec fn trigger_index(triggers: Seq<TriggerView>, process_name: Seq<char>) -> Option<int>
    decreases triggers.len(),
{
    if triggers.len() == 0 {
        None
    } else {
        match trigger_index(triggers.drop_last(), process_name) {
            Some(i) => Some(i),
            None => if normalized(triggers.last().process_name) == normalized(process_name) {
                Some(triggers.len() - 1)
            } else {
                None
            },
        }
    }
}

proof fn lemma_trigger_index_prefix(triggers: Seq<TriggerView>, process_name: Seq<char>, i: int)
    requires
        0 <= i < triggers.len(),
        trigger_index(triggers.take(i + 1), process_name) == Some(i),
    ensures
        trigger_index(triggers, process_name) == Some(i),
    decreases triggers.len(),
{
    if triggers.len() > i + 1 {
        assert(triggers.drop_last().take(i + 1) =~= triggers.take(i + 1));
        lemma_trigger_index_prefix(triggers.drop_last(), process_name, i);
    } else {
        assert(triggers.take(i + 1) =~= triggers);
    }
}

proof fn lemma_trigger_index_bounds(triggers: Seq<TriggerView>, process_name: Seq<char>)
    ensures
        trigger_index(triggers, process_name) matches Some(i) ==> 0 <= i < triggers.len(),
    decreases triggers.len(),
{
    if triggers.len() > 0 {
        lemma_trigger_index_bounds(triggers.drop_last(), process_name);
    }
}

/// The trigger a flight starts: the profile's first trigger with that process name, which
/// must have a launch target.
pub open spec fn flight_trigger_of(profile: ProfileView, process_name: Seq<char>) -> Option<TriggerView> {
    match trigger_index(profile.triggers, process_name) {
        Some(i) => if profile.triggers[i].launch_target is Some {
            Some(profile.triggers[i])
        } else {
            None
        },
        None => None,
    }
}

pub fn flight_trigger(profile: &Profile, trigger_process_name: &str) -> (trigger: Result<Trigger, AppError>)
    ensures
        match flight_trigger_of(profile@, trigger_process_name@) {
            Some(t) => trigger matches Ok(found) && found@ == t,
            None => trigger matches Err(AppError::Validation(message)) && message@
                == trigger_process_name@ + " has no launch target"@,
        },
{
    let ghost all = profile@.triggers;
    let mut i: usize = 0;
    while i < profile.triggers.len()
        invariant
            all == profile@.triggers,
            all == profile.triggers.deep_view(),
            i <= all.len(),
            trigger_index(all.take(i as int), trigger_process_name@) is None,
        decreases all.len() - i,
    {
        assert(all.take(i + 1).drop_last() =~= all.take(i as int));
        assert(all[i as int] == profile.triggers@[i as int]@);
        let trigger = &profile.triggers[i];
        if same_process_name(trigger.process_name.as_str(), trigger_process_name) {
            proof {
                lemma_trigger_index_prefix(all, trigger_process_name@, i as int);
            }
            if trigger.launch_target.is_some() {
                return Ok(trigger.clone());
            }
            return Err(
                AppError::Validation(
                    crate::text::owned(trigger_process_name).concat(" has no launch target"),
                ),
            );
        }
        i = i + 1;
    }
    assert(all.take(i as int) =~= all);
    Err(
        AppError::Validation(
            crate::text::owned(trigger_process_name).concat(" has no launch target"),
        ),
    )
}

/// "Start flight" is only taken while nothing runs; then the profile must exist and the
/// simulator must be one of its triggers with a launch target.
pub fn plan_flight(state: State, app: &AppState, profile_id: &str, trigger_process_name: &str) -> (plan:
    Result<(Profile, Trigger), AppError>)
    ensures
        state != State::Idle ==> plan matches Err(AppError::SessionInProgress),
        state == State::Idle ==> match index_of_id(app@.profiles, profile_id@) {
            None => plan matches Err(AppError::ProfileNotFound(missing)) && missing@ == profile_id@,
            Some(i) => match flight_trigger_of(app@.profiles[i], trigger_process_name@) {
                Some(t) => plan matches Ok(pair) && pair.0@ == app@.profiles[i] && pair.1@ == t,
                None => plan matches Err(AppError::Validation(message)) && message@
                    == trigger_process_name@ + " has no launch target"@,
            },
        },
{
    if state != State::Idle {
        return Err(AppError::SessionInProgress);
    }
    let profile = match app.profile(profile_id) {
        Ok(profile) => profile,
        Err(error) => {
            return Err(error);
        },
    };
    match flight_trigger(&profile, trigger_process_name) {
        Ok(trigger) => {
            let ghost pv = profile@;
            let ghost tv = trigger@;
            let plan = Ok((profile, trigger));
            assert(plan.unwrap().0@ == pv);
            assert(plan.unwrap().1@ == tv);
            plan
        },
        Err(error) => Err(error),
    }
}

/// Tests wait while a real session runs.
pub fn ensure_no_session(state: State) -> (result: Result<(), AppError>)
    ensures
        is_session_state(state) ==> result matches Err(AppError::SessionInProgress),
        !is_session_state(state) ==> result is Ok,
{
    if state.has_session() {
        return Err(AppError::SessionInProgress);
    }
    Ok(())
}

/// How a session closes: only what AutoStart opened, when the settings say so, and how long
/// each app gets to close on its own, in milliseconds.
pub fn close_settings(settings: &Settings) -> (close: (bool, u64))
    ensures
        close.0 == settings.close_only_if_launched_by_app,
        close.1 == settings.graceful_timeout_ms,
{
    (settings.close_only_if_launched_by_app, settings.graceful_timeout_ms as u64)
}

/// What one poll found.
pub struct Observation {
    /// What the state machine is told; nothing while paused.
    pub input: Option<Input>,
    /// Without a session: the profile and trigger that would start one.
    pub pending: Option<(Profile, StartMode)>,
}

/// One poll: a running session watches its own profile (while a flight starts, only the
/// simulator the pilot picked); without a session, the first enabled profile with a running
/// trigger is the one that would start. `is_running` is the probe of the process list.
pub fn observe<F: Fn(&str) -> bool>(
    state: State,
    session: Option<&Session>,
    profiles: &[Profile],
    is_running: F,
) -> (seen: Observation)
    requires
        forall|text: &str| is_running.requires((text,)),
    ensures
        state == State::Paused ==> seen.input is None && seen.pending is None,
        state != State::Paused ==> (seen.input == Some(Input::TriggerSeen) || seen.input == Some(
            Input::TriggerMissing,
        )),
        state != State::Paused && session is Some ==> seen.pending is None && ({
            let s = session.unwrap();
            let awaited = if state is SimStarting {
                s.mode_view().trigger()
            } else {
                None
            };
            let saw = seen.input == Some(Input::TriggerSeen);
            match awaited {
                Some(trigger) => answered(is_running, trigger.process_name, saw),
                None => (saw ==> exists|k: int|
                    0 <= k < s.profile_view().triggers.len() && answered(
                        is_running,
                        #[trigger] s.profile_view().triggers[k].process_name,
                        true,
                    )) && (!saw ==> none_running(is_running, s.profile_view().triggers)),
            }
        }),
        state != State::Paused && session is None ==> (seen.input == Some(Input::TriggerSeen)
            <==> seen.pending is Some) && match seen.pending {
            Some(pending) => pending.0@.enabled && (exists|i: int|
                0 <= i < profiles@.len() && #[trigger] profiles@[i]@ == pending.0@ && forall|j: int|
                    0 <= j < i && (#[trigger] profiles@[j]).enabled ==> none_running(
                        is_running,
                        profiles@[j]@.triggers,
                    )) && (exists|trigger: TriggerView|
                pending.1@ == StartModeView::Detected(trigger) && answered(
                    is_running,
                    trigger.process_name,
                    true,
                ) && exists|k: int|
                    0 <= k < pending.0@.triggers.len() && #[trigger] pending.0@.triggers[k] == trigger
                        && none_running(is_running, pending.0@.triggers.take(k))),
            None => forall|j: int|
                0 <= j < profiles@.len() && (#[trigger] profiles@[j]).enabled ==> none_running(
                    is_running,
                    profiles@[j]@.triggers,
                ),
        },
{
    if state == State::Paused {
        return Observation { input: None, pending: None };
    }
    match session {
        Some(session) => {
            let starting = match state {
                State::SimStarting { .. } => true,
                _ => false,
            };
            let awaited = if starting {
                session.mode().trigger()
            } else {
                None
            };
            let saw = session_simulator_running(session.profile(), awaited, is_running);
            let input = if saw {
                Input::TriggerSeen
            } else {
                Input::TriggerMissing
            };
            Observation { input: Some(input), pending: None }
        },
        None => match first_running_profile(profiles, is_running) {
            Some(pair) => {
                let ghost pv = pair.0@;
                let ghost tv = pair.1@;
                let (profile, trigger) = pair;
                let mode = StartMode::Detected(trigger);
                assert(mode@ == StartModeView::Detected(tv));
                let seen = Observation { input: Some(Input::TriggerSeen), pending: Some((profile, mode)) };
                assert(seen.pending.unwrap().0@ == pv);
                assert(seen.pending.unwrap().1@ == StartModeView::Detected(tv));
                proof {
                    let k = choose|k: int|
                        0 <= k < pv.triggers.len() && #[trigger] pv.triggers[k] == tv && answered(
                            is_running,
                            tv.process_name,
                            true,
                        ) && none_running(is_running, pv.triggers.take(k));
                    assert(pv.triggers[k] == tv);
                }
                seen
            },
            None => Observation { input: Some(Input::TriggerMissing), pending: None },
        },
    }
}

/// What the window and the tray ask of the monitor.
#[derive(Debug, Clone, PartialEq, Eq)]
pub enum MonitorCommand {
    StartFlight { profile_id: String, trigger_process_name: String },
    CancelStart,
    SimulatorFailed,
    Pause,
    Resume,
    CloseNow,
    KeepApps,
    ClosingFinished,
    TestLaunch { profile_id: String },
    TestClose { profile_id: String },
}

/// How the monitor takes a command.
#[derive(Debug, Clone, PartialEq, Eq)]
pub enum CommandStep {
    /// The state machine is told.
    Apply(Input),
    /// The closed session is dropped, then the state machine is told.
    ClearSessionThenApply(Input),
    /// A flight is planned with `plan_flight`; if the plan holds, the state machine is told
    /// `StartFlight`.
    PlanFlight { profile_id: String, trigger_process_name: String },
    /// A test launch starts once `ensure_no_session` allows it.
    TestLaunch { profile_id: String },
    /// A test close starts once `ensure_no_session` allows it.
    TestClose { profile_id: String },
}

/// Cancelling a start counts as a failed start; pausing, resuming, closing now and keeping
/// the apps go to the state machine; a finished close first drops the session.
pub fn command_step(command: MonitorCommand) -> (step: CommandStep)
    ensures
        step == match command {
            MonitorCommand::StartFlight { profile_id, trigger_process_name } => CommandStep::PlanFlight {
                profile_id,
                trigger_process_name,
            },
            MonitorCommand::CancelStart => CommandStep::Apply(Input::SimulatorFailed),
            MonitorCommand::SimulatorFailed => CommandStep::Apply(Input::SimulatorFailed),
            MonitorCommand::Pause => CommandStep::Apply(Input::Pause),
            MonitorCommand::Resume => CommandStep::Apply(Input::Resume),
            MonitorCommand::CloseNow => CommandStep::Apply(Input::CloseNow),
            MonitorCommand::KeepApps => CommandStep::Apply(Input::KeepApps),
            MonitorCommand::ClosingFinished => CommandStep::ClearSessionThenApply(Input::ClosingFinished),
            MonitorCommand::TestLaunch { profile_id } => CommandStep::TestLaunch { profile_id },
            MonitorCommand::TestClose { profile_id } => CommandStep::TestClose { profile_id },
        },
{
    match command {
        MonitorCommand::StartFlight { profile_id, trigger_process_name } => CommandStep::PlanFlight {
            profile_id,
            trigger_process_name,
        },
        MonitorCommand::CancelStart | MonitorCommand::SimulatorFailed => CommandStep::Apply(
            Input::SimulatorFailed,
        ),
        MonitorCommand::Pause => CommandStep::Apply(Input::Pause),
        MonitorCommand::Resume => CommandStep::Apply(Input::Resume),
        MonitorCommand::CloseNow => CommandStep::Apply(Input::CloseNow),
        MonitorCommand::KeepApps => CommandStep::Apply(Input::KeepApps),
        MonitorCommand::ClosingFinished => CommandStep::ClearSessionThenApply(Input::ClosingFinished),
        MonitorCommand::TestLaunch { profile_id } => CommandStep::TestLaunch { profile_id },
        MonitorCommand::TestClose { profile_id } => CommandStep::TestClose { profile_id },
    }
}

} // verus!
