//! The monitor's states and what each poll or command does to them.
use vstd::prelude::*;

use crate::models::MonitorState;

verus! {

/// Consecutive polls without the trigger before the session ends; absorbs brief restarts.
pub const MISSED_TICKS_TO_CLOSE: u8 = 2;

/// Five minutes of 2-second polls for a simulator started with "Start flight" to show up.
pub const SIMULATOR_START_TICKS: u32 = 150;

#[derive(Debug, Clone, Copy, PartialEq, Eq, Structural)]
pub enum State {
    Idle,
    /// A flight started from AutoStart, waiting for the chosen simulator to show up.
    SimStarting { remaining_ticks: u32 },
    SimRunning { missed_ticks: u8 },
    /// Waiting before closing, so a simulator restarted after a crash keeps its apps.
    ClosePending { remaining_ticks: u32 },
    Closing,
    Paused,
}

impl Default for State {
    fn default() -> (state: Self)
        ensures
            state == State::Idle,
    {
        State::Idle
    }
}

#[derive(Debug, Clone, Copy, PartialEq, Eq, Structural)]
pub enum Input {
    StartFlight,
    /// The simulator could not be started, or the user cancelled the start.
    SimulatorFailed,
    TriggerSeen,
    TriggerMissing,
    ClosingFinished,
    CloseNow,
    KeepApps,
    Pause,
    Resume,
}

#[derive(Debug, Clone, Copy, PartialEq, Eq, Structural)]
pub enum SessionAction {
    Start,
    SimulatorArrived,
    /// The simulator never showed up; the session closes like after a simulator exit.
    StartFailed,
    DelayClose,
    Continue,
    End,
    Release,
    Discard,
}

/// The state a session closes into: the close delay, or closing right away without one.
pub open spec fn closing_state_spec(close_delay_ticks: u32) -> State {
    if close_delay_ticks == 0 {
        State::Closing
    } else {
        State::ClosePending { remaining_ticks: close_delay_ticks }
    }
}

pub open spec fn is_session_state(state: State) -> bool {
    match state {
        State::SimStarting { .. } | State::SimRunning { .. } | State::ClosePending { .. }
        | State::Closing => true,
        _ => false,
    }
}

/// The transition table of the monitor.
pub open spec fn transition(state: State, input: Input, close_delay_ticks: u32) -> (
    State,
    Option<SessionAction>,
) {
    match (state, input) {
        (State::Paused, Input::Resume) => (State::Idle, None),
        (State::Paused, _) => (State::Paused, None),
        (_, Input::Pause) => if is_session_state(state) && state != State::Closing {
            (State::Paused, Some(SessionAction::Discard))
        } else {
            (State::Paused, None)
        },
        (State::Idle, Input::StartFlight) => (
            State::SimStarting { remaining_ticks: SIMULATOR_START_TICKS },
            Some(SessionAction::Start),
        ),
        (State::Idle, Input::TriggerSeen) => (
            State::SimRunning { missed_ticks: 0 },
            Some(SessionAction::Start),
        ),
        (State::SimStarting { .. }, Input::TriggerSeen) => (
            State::SimRunning { missed_ticks: 0 },
            Some(SessionAction::SimulatorArrived),
        ),
        (State::SimStarting { remaining_ticks }, Input::TriggerMissing) => if remaining_ticks > 1 {
            (State::SimStarting { remaining_ticks: (remaining_ticks - 1) as u32 }, None)
        } else {
            (closing_state_spec(close_delay_ticks), Some(SessionAction::StartFailed))
        },
        (State::SimStarting { .. }, Input::SimulatorFailed) => (
            closing_state_spec(close_delay_ticks),
            Some(SessionAction::StartFailed),
        ),
        (State::SimRunning { .. }, Input::TriggerSeen) => (State::SimRunning { missed_ticks: 0 }, None),
        (State::SimRunning { missed_ticks }, Input::TriggerMissing) => {
            let missed: u8 = if missed_ticks == 255 {
                255
            } else {
                (missed_ticks + 1) as u8
            };
            if missed < MISSED_TICKS_TO_CLOSE {
                (State::SimRunning { missed_ticks: missed }, None)
            } else if close_delay_ticks == 0 {
                (State::Closing, Some(SessionAction::End))
            } else {
                (
                    State::ClosePending { remaining_ticks: close_delay_ticks },
                    Some(SessionAction::DelayClose),
                )
            }
        },
        (State::ClosePending { .. }, Input::TriggerSeen) => (
            State::SimRunning { missed_ticks: 0 },
            Some(SessionAction::Continue),
        ),
        (State::ClosePending { remaining_ticks }, Input::TriggerMissing) => if remaining_ticks <= 1 {
            (State::Closing, Some(SessionAction::End))
        } else {
            (State::ClosePending { remaining_ticks: (remaining_ticks - 1) as u32 }, None)
        },
        (State::ClosePending { .. }, Input::CloseNow) => (State::Closing, Some(SessionAction::End)),
        (State::ClosePending { .. }, Input::KeepApps) => (State::Idle, Some(SessionAction::Release)),
        (State::Closing, Input::ClosingFinished) => (State::Idle, None),
        (current, _) => (current, None),
    }
}

/// `close_delay_ticks` is the configured close delay in polls; 0 closes right away.
pub fn next(state: State, input: Input, close_delay_ticks: u32) -> (step: (
    State,
    Option<SessionAction>,
))
    ensures
        step == transition(state, input, close_delay_ticks),
{
    match (state, input) {
        (State::Paused, Input::Resume) => (State::Idle, None),
        (State::Paused, _) => (State::Paused, None),
        (State::SimStarting { .. }, Input::Pause)
        | (State::SimRunning { .. }, Input::Pause)
        | (State::ClosePending { .. }, Input::Pause) => (State::Paused, Some(SessionAction::Discard)),
        (_, Input::Pause) => (State::Paused, None),
        (State::Idle, Input::StartFlight) => (
            State::SimStarting { remaining_ticks: SIMULATOR_START_TICKS },
            Some(SessionAction::Start),
        ),
        (State::SimStarting { .. }, Input::TriggerSeen) => (
            State::SimRunning { missed_ticks: 0 },
            Some(SessionAction::SimulatorArrived),
        ),
        (State::SimStarting { remaining_ticks }, Input::TriggerMissing) if remaining_ticks > 1 => (
            State::SimStarting { remaining_ticks: remaining_ticks - 1 },
            None,
        ),
        (State::SimStarting { .. }, Input::TriggerMissing)
        | (State::SimStarting { .. }, Input::SimulatorFailed) => (
            closing_state(close_delay_ticks),
            Some(SessionAction::StartFailed),
        ),
        (State::Idle, Input::TriggerSeen) => (
            State::SimRunning { missed_ticks: 0 },
            Some(SessionAction::Start),
        ),
        (State::SimRunning { .. }, Input::TriggerSeen) => (State::SimRunning { missed_ticks: 0 }, None),
        (State::SimRunning { missed_ticks }, Input::TriggerMissing) => {
            let missed_ticks = missed_ticks.saturating_add(1);
            if missed_ticks < MISSED_TICKS_TO_CLOSE {
                (State::SimRunning { missed_ticks }, None)
            } else if close_delay_ticks == 0 {
                (State::Closing, Some(SessionAction::End))
            } else {
                (
                    State::ClosePending { remaining_ticks: close_delay_ticks },
                    Some(SessionAction::DelayClose),
                )
            }
        },
        (State::ClosePending { .. }, Input::TriggerSeen) => (
            State::SimRunning { missed_ticks: 0 },
            Some(SessionAction::Continue),
        ),
        (State::ClosePending { remaining_ticks }, Input::TriggerMissing) => {
            if remaining_ticks <= 1 {
                (State::Closing, Some(SessionAction::End))
            } else {
                (State::ClosePending { remaining_ticks: remaining_ticks - 1 }, None)
            }
        },
        (State::ClosePending { .. }, Input::CloseNow) => (State::Closing, Some(SessionAction::End)),
        (State::ClosePending { .. }, Input::KeepApps) => (State::Idle, Some(SessionAction::Release)),
        (State::Closing, Input::ClosingFinished) => (State::Idle, None),
        (current, _) => (current, None),
    }
}

fn closing_state(close_delay_ticks: u32) -> (state: State)
    ensures
        state == closing_state_spec(close_delay_ticks),
{
    if close_delay_ticks == 0 {
        State::Closing
    } else {
        State::ClosePending { remaining_ticks: close_delay_ticks }
    }
}

pub open spec fn public_state(state: State) -> MonitorState {
    match state {
        State::Idle => MonitorState::Idle,
        State::SimStarting { .. } => MonitorState::SimStarting,
        State::SimRunning { .. } => MonitorState::SimRunning,
        State::ClosePending { .. } => MonitorState::ClosePending,
        State::Closing => MonitorState::Closing,
        State::Paused => MonitorState::Paused,
    }
}

impl State {
    pub fn public(self) -> (public: MonitorState)
        ensures
            public == public_state(self),
    {
        match self {
            State::Idle => MonitorState::Idle,
            State::SimStarting { .. } => MonitorState::SimStarting,
            State::SimRunning { .. } => MonitorState::SimRunning,
            State::ClosePending { .. } => MonitorState::ClosePending,
            State::Closing => MonitorState::Closing,
            State::Paused => MonitorState::Paused,
        }
    }

    pub fn has_session(self) -> (active: bool)
        ensures
            active == is_session_state(self),
    {
        match self {
            State::SimStarting { .. } | State::SimRunning { .. } | State::ClosePending { .. }
            | State::Closing => true,
            _ => false,
        }
    }
}

/// The counters that the machine keeps in range: a running session has missed fewer polls
/// than it takes to close, and a countdown always has a poll left.
pub open spec fn well_formed(state: State) -> bool {
    match state {
        State::SimStarting { remaining_ticks } => remaining_ticks >= 1,
        State::SimRunning { missed_ticks } => missed_ticks < MISSED_TICKS_TO_CLOSE,
        State::ClosePending { remaining_ticks } => remaining_ticks >= 1,
        _ => true,
    }
}

/// The state after a run of inputs, from `state`.
pub open spec fn run(state: State, inputs: Seq<Input>, close_delay_ticks: u32) -> State
    decreases inputs.len(),
{
    if inputs.len() == 0 {
        state
    } else {
        run(transition(state, inputs[0], close_delay_ticks).0, inputs.drop_first(), close_delay_ticks)
    }
}

/// Every transition keeps the counters in range.
pub proof fn lemma_next_keeps_well_formed(state: State, input: Input, close_delay_ticks: u32)
    requires
        well_formed(state),
    ensures
        well_formed(transition(state, input, close_delay_ticks).0),
{
}

/// A session begins exactly when the machine says `Start`: the state moves into a session
/// state exactly on that action.
pub proof fn lemma_start_marks_session_begin(state: State, input: Input, close_delay_ticks: u32)
    ensures
        (!is_session_state(state) && is_session_state(transition(state, input, close_delay_ticks).0))
            <==> transition(state, input, close_delay_ticks).1 == Some(SessionAction::Start),
        transition(state, input, close_delay_ticks).1 == Some(SessionAction::Start) ==> state
            == State::Idle,
{
}

/// A session that is not already closing only stops being one through `Release` (the pilot
/// kept the apps) or `Discard` (the monitor was paused), and those actions always leave it.
pub proof fn lemma_session_left_by_release_or_discard(
    state: State,
    input: Input,
    close_delay_ticks: u32,
)
    requires
        state != State::Closing,
    ensures
        ({
            let (after, action) = transition(state, input, close_delay_ticks);
            (is_session_state(state) && !is_session_state(after)) <==> (action == Some(
                SessionAction::Release,
            ) || action == Some(SessionAction::Discard))
        }),
{
}

/// While paused, only `Resume` changes anything, and it leads to `Idle`; no input produces
/// an action.
pub proof fn lemma_paused_only_resumes(input: Input, close_delay_ticks: u32)
    ensures
        transition(State::Paused, input, close_delay_ticks) == (if input == Input::Resume {
            (State::Idle, None::<SessionAction>)
        } else {
            (State::Paused, None::<SessionAction>)
        }),
{
}

/// Pausing always reaches `Paused`, and discards the session exactly when one is running
/// and not already closing.
pub proof fn lemma_pause_discards_session(state: State, close_delay_ticks: u32)
    ensures
        transition(state, Input::Pause, close_delay_ticks).0 == State::Paused,
        transition(state, Input::Pause, close_delay_ticks).1 == (if is_session_state(state) && state
            != State::Closing {
            Some(SessionAction::Discard)
        } else {
            None
        }),
{
}

/// The actions that end a session lead to closing (or to the close delay), and the delay
/// is only entered with a positive number of polls.
pub proof fn lemma_end_actions_close(state: State, input: Input, close_delay_ticks: u32)
    ensures
        ({
            let (after, action) = transition(state, input, close_delay_ticks);
            &&& action == Some(SessionAction::End) ==> after == State::Closing
            &&& action == Some(SessionAction::DelayClose) ==> after == (State::ClosePending {
                remaining_ticks: close_delay_ticks,
            }) && close_delay_ticks > 0
            &&& action == Some(SessionAction::StartFailed) ==> after == closing_state_spec(
                close_delay_ticks,
            )
        }),
{
}

/// The close delay lasts exactly its number of polls: from `ClosePending { k }`, `j` missing
/// polls with `j < k` count down to `ClosePending { k - j }`.
pub proof fn lemma_close_delay_counts_down(remaining: u32, j: nat, close_delay_ticks: u32)
    requires
        j < remaining,
    ensures
        run(
            State::ClosePending { remaining_ticks: remaining },
            Seq::new(j, |_i: int| Input::TriggerMissing),
            close_delay_ticks,
        ) == (State::ClosePending { remaining_ticks: (remaining - j) as u32 }),
    decreases j,
{
    let inputs = Seq::new(j, |_i: int| Input::TriggerMissing);
    if j > 0 {
        let rest = Seq::new((j - 1) as nat, |_i: int| Input::TriggerMissing);
        assert(inputs.drop_first() =~= rest);
        lemma_close_delay_counts_down((remaining - 1) as u32, (j - 1) as nat, close_delay_ticks);
    }
}

/// ... and the poll that uses up the delay closes: `k` missing polls from
/// `ClosePending { k }` reach `Closing`.
pub proof fn lemma_close_delay_expires(remaining: u32, close_delay_ticks: u32)
    requires
        remaining >= 1,
    ensures
        run(
            State::ClosePending { remaining_ticks: remaining },
            Seq::new(remaining as nat, |_i: int| Input::TriggerMissing),
            close_delay_ticks,
        ) == State::Closing,
    decreases remaining,
{
    let inputs = Seq::new(remaining as nat, |_i: int| Input::TriggerMissing);
    let rest = Seq::new((remaining - 1) as nat, |_i: int| Input::TriggerMissing);
    assert(inputs.drop_first() =~= rest);
    assert(inputs[0] == Input::TriggerMissing);
    if remaining > 1 {
        lemma_close_delay_expires((remaining - 1) as u32, close_delay_ticks);
        assert(transition(State::ClosePending { remaining_ticks: remaining }, inputs[0], close_delay_ticks).0
            == State::ClosePending { remaining_ticks: (remaining - 1) as u32 });
    } else {
        assert(rest.len() == 0);
        assert(transition(State::ClosePending { remaining_ticks: remaining }, inputs[0], close_delay_ticks).0
            == State::Closing);
        assert(run(State::Closing, rest, close_delay_ticks) == State::Closing);
    }
}

/// The monitor-level state and the public state agree on whether a session is running.
pub proof fn lemma_public_state_keeps_session(state: State)
    ensures
        is_session_state(state) == crate::tray::state_has_session(public_state(state)),
{
}

/// A simulator that comes back during the close delay (after a crash to desktop, say) lets
/// the session go on: nothing is closed or opened again.
pub proof fn lemma_return_during_delay_continues(remaining: u32, close_delay_ticks: u32)
    ensures
        transition(State::ClosePending { remaining_ticks: remaining }, Input::TriggerSeen, close_delay_ticks)
            == (State::SimRunning { missed_ticks: 0 }, Some(SessionAction::Continue)),
{
}

/// A flight whose simulator never shows up gives up after its polls are used up, and then
/// closes like after a simulator exit: `k` missing polls from `SimStarting { k }` reach the
/// close delay (or closing, without one).
pub proof fn lemma_flight_start_gives_up(remaining: u32, close_delay_ticks: u32)
    requires
        remaining >= 1,
    ensures
        run(
            State::SimStarting { remaining_ticks: remaining },
            Seq::new(remaining as nat, |_i: int| Input::TriggerMissing),
            close_delay_ticks,
        ) == closing_state_spec(close_delay_ticks),
    decreases remaining,
{
    let inputs = Seq::new(remaining as nat, |_i: int| Input::TriggerMissing);
    let rest = Seq::new((remaining - 1) as nat, |_i: int| Input::TriggerMissing);
    assert(inputs.drop_first() =~= rest);
    assert(inputs[0] == Input::TriggerMissing);
    if remaining > 1 {
        lemma_flight_start_gives_up((remaining - 1) as u32, close_delay_ticks);
        assert(transition(State::SimStarting { remaining_ticks: remaining }, inputs[0], close_delay_ticks).0
            == State::SimStarting { remaining_ticks: (remaining - 1) as u32 });
    } else {
        assert(rest.len() == 0);
        assert(run(closing_state_spec(close_delay_ticks), rest, close_delay_ticks) == closing_state_spec(
            close_delay_ticks,
        ));
    }
}

} // verus!
