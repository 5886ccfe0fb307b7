//! When an app that may be reopened has crashed.
use vstd::prelude::*;

use crate::error::{error_kind, error_message, AppError};
use crate::launcher::LaunchOutcome;
use crate::models::{AppItem, ItemRuntime, ItemStatus, LaunchItemView};
use crate::monitor::session::{app_index, Session};
use crate::text::{owned, push_char};

verus! {

/// How many times a crashed app is reopened in one session.
pub const MAX_RELAUNCHES: u32 = 3;
pub const CHECK_INTERVAL_MS: u64 = 2_000;
pub const RELAUNCH_DELAY_MS: u64 = 5_000;

#[derive(Debug, Clone, Copy, PartialEq, Eq, Structural)]
pub enum Verdict {
    Crashed { exit_code: u32 },
    ClosedNormally,
}

/// The first failing exit code.
pub open spec fn first_failing(codes: Seq<Option<u32>>) -> Option<u32>
    decreases codes.len(),
{
    if codes.len() == 0 {
        None
    } else if codes[0] matches Some(code) && code != 0 {
        Some(codes[0]->0)
    } else {
        first_failing(codes.drop_first())
    }
}

/// No verdict while a process runs or none was watched; then a non-zero exit code means a
/// crash (or a kill) and exit code 0 a close on purpose.
pub open spec fn verdict_of(codes: Seq<Option<u32>>) -> Option<Verdict> {
    if codes.len() == 0 || exists|i: int| 0 <= i < codes.len() && (#[trigger] codes[i]) is None {
        None
    } else {
        match first_failing(codes) {
            Some(exit_code) => Some(Verdict::Crashed { exit_code }),
            None => Some(Verdict::ClosedNormally),
        }
    }
}

/// Decides only once every watched process has exited.
pub fn crash_verdict(exit_codes: &[Option<u32>]) -> (verdict: Option<Verdict>)
    ensures
        verdict == verdict_of(exit_codes@),
{
    if exit_codes.len() == 0 {
        return None;
    }
    let mut i: usize = 0;
    while i < exit_codes.len()
        invariant
            i <= exit_codes@.len(),
            forall|j: int| 0 <= j < i ==> (#[trigger] exit_codes@[j]) is Some,
        decreases exit_codes@.len() - i,
    {
        if exit_codes[i].is_none() {
            return None;
        }
        i = i + 1;
    }
    let mut k: usize = 0;
    assert(exit_codes@.skip(0) =~= exit_codes@);
    while k < exit_codes.len()
        invariant
            k <= exit_codes@.len(),
            exit_codes@.len() > 0,
            forall|j: int| 0 <= j < exit_codes@.len() ==> (#[trigger] exit_codes@[j]) is Some,
            first_failing(exit_codes@) == first_failing(exit_codes@.skip(k as int)),
        decreases exit_codes@.len() - k,
    {
        assert(exit_codes@.skip(k as int)[0] == exit_codes@[k as int]);
        if let Some(code) = exit_codes[k] {
            if code != 0 {
                return Some(Verdict::Crashed { exit_code: code });
            }
        }
        assert(exit_codes@.skip(k as int).drop_first() =~= exit_codes@.skip(k + 1));
        k = k + 1;
    }
    Some(Verdict::ClosedNormally)
}

/// Relaunches stop after the third.
pub fn may_relaunch(relaunches: u32) -> (allowed: bool)
    ensures
        allowed == (relaunches < MAX_RELAUNCHES),
{
    relaunches < MAX_RELAUNCHES
}

/// What the crash watch does after its item's processes have exited.
#[derive(Debug, Clone, Copy, PartialEq, Eq, Structural)]
pub enum CrashWatchStep {
    /// No crash, or reopening is no longer allowed in this session: the watch ends.
    Stop,
    /// Crashed once too often: the item is reported as kept crashing and the watch ends.
    GiveUp,
    /// Crashed: the item is reopened after the delay and watched again.
    Relaunch,
}

/// A crash is followed by a reopen while the session allows it and fewer than
/// `MAX_RELAUNCHES` reopens happened; a close on purpose ends the watch.
pub open spec fn crash_step(verdict: Option<Verdict>, relaunch_allowed: bool, relaunches: nat) -> CrashWatchStep {
    match verdict {
        Some(Verdict::Crashed { .. }) => if !relaunch_allowed {
            CrashWatchStep::Stop
        } else if relaunches >= MAX_RELAUNCHES {
            CrashWatchStep::GiveUp
        } else {
            CrashWatchStep::Relaunch
        },
        _ => CrashWatchStep::Stop,
    }
}

/// Only a crash is acted on, and only while the session allows reopening: the app is reopened
/// while fewer than `MAX_RELAUNCHES` reopens happened and given up on after that; a close on
/// purpose, no verdict, or a session that no longer allows it ends the watch.
pub proof fn lemma_crash_step_acts_only_on_allowed_crashes(verdict: Option<Verdict>, relaunch_allowed: bool, relaunches: nat)
    ensures
        (crash_step(verdict, relaunch_allowed, relaunches) == CrashWatchStep::Relaunch) == (
        verdict matches Some(Verdict::Crashed { .. }) && relaunch_allowed && relaunches < 3),
        (crash_step(verdict, relaunch_allowed, relaunches) == CrashWatchStep::GiveUp) == (
        verdict matches Some(Verdict::Crashed { .. }) && relaunch_allowed && relaunches >= 3),
        (crash_step(verdict, relaunch_allowed, relaunches) == CrashWatchStep::Stop) == !(
        verdict matches Some(Verdict::Crashed { .. }) && relaunch_allowed),
{
}

pub fn crash_watch_step(verdict: Option<Verdict>, relaunch_allowed: bool, relaunches: u32) -> (step: CrashWatchStep)
    ensures
        step == crash_step(verdict, relaunch_allowed, relaunches as nat),
{
    match verdict {
        Some(Verdict::Crashed { .. }) => if !relaunch_allowed {
            CrashWatchStep::Stop
        } else if !may_relaunch(relaunches) {
            CrashWatchStep::GiveUp
        } else {
            CrashWatchStep::Relaunch
        },
        _ => CrashWatchStep::Stop,
    }
}

/// How many reopens a watch makes when it sees these verdicts (each with whether the session
/// still allows reopening), having made `done` already: it counts up on each reopen and ends
/// at the first other step.
pub open spec fn reopens(observed: Seq<(Option<Verdict>, bool)>, done: nat) -> nat
    decreases observed.len(),
{
    if observed.len() == 0 {
        done
    } else if crash_step(observed[0].0, observed[0].1, done) == CrashWatchStep::Relaunch {
        reopens(observed.drop_first(), done + 1)
    } else {
        done
    }
}

/// A crashed app is reopened at most `MAX_RELAUNCHES` times in a session, whatever the
/// verdicts the watch sees.
pub proof fn lemma_reopens_bounded(observed: Seq<(Option<Verdict>, bool)>, done: nat)
    requires
        done <= MAX_RELAUNCHES,
    ensures
        done <= reopens(observed, done) <= MAX_RELAUNCHES,
    decreases observed.len(),
{
    if observed.len() > 0 && crash_step(observed[0].0, observed[0].1, done) == CrashWatchStep::Relaunch {
        lemma_reopens_bounded(observed.drop_first(), done + 1);
    }
}

/// A runtime without an error.
pub fn runtime(item_id: &str, status: ItemStatus, launched_by_app: bool) -> (runtime: ItemRuntime)
    ensures
        runtime@.item_id == item_id@,
        runtime@.status == status,
        runtime@.launched_by_app == launched_by_app,
        runtime@.error is None,
{
    ItemRuntime {
        item_id: crate::text::owned(item_id),
        status,
        launched_by_app,
        error: None,
    }
}

/// The item to reopen, while the session still allows it and still has the item.
pub fn relaunchable_item(session: &Session, item_id: &str) -> (item: Option<AppItem>)
    ensures
        !(session.relaunch_flag() && session.log_view().ended_at_ms is None) ==> item is None,
        session.relaunch_flag() && session.log_view().ended_at_ms is None ==> match app_index(
            session.profile_view().items,
            item_id@,
        ) {
            Some(i) => item matches Some(app) && session.profile_view().items[i] == LaunchItemView::App(
                app@,
            ),
            None => item is None,
        },
{
    if !session.relaunch_allowed() {
        return None;
    }
    session.app_item(item_id)
}

/// The error reported when an app keeps crashing: it names the app, or nothing when the item
/// is gone.
pub fn kept_crashing(session: &Session, item_id: &str) -> (error: AppError)
    ensures
        error matches AppError::KeptCrashing(name) && name@ == match app_index(
            session.profile_view().items,
            item_id@,
        ) {
            Some(i) => match session.profile_view().items[i] {
                LaunchItemView::App(app) => app.name,
                LaunchItemView::Url(_) => Seq::empty(),
            },
            None => Seq::empty(),
        },
{
    let name = match session.app_item(item_id) {
        Some(item) => item.name,
        None => String::new(),
    };
    AppError::KeptCrashing(name)
}

/// The hexadecimal digits of a number, most significant first, without leading zeros.
pub open spec fn hex(n: nat) -> Seq<char>
    decreases n,
{
    if n < 16 {
        seq![hex_digit(n)]
    } else {
        hex(n / 16).push(hex_digit(n % 16))
    }
}

pub open spec fn hex_digit(d: nat) -> char {
    if d < 10 {
        ((d + 48) as u8) as char
    } else {
        ((d + 87) as u8) as char
    }
}

fn push_hex(text: &mut String, n: u32)
    ensures
        final(text)@ == old(text)@ + hex(n as nat),
    decreases n,
{
    if n >= 16 {
        push_hex(text, n / 16);
    }
    let d: u32 = n % 16;
    let code: u8 = if d < 10 {
        (d as u8) + 48
    } else {
        (d as u8) + 87
    };
    push_char(text, code as char);
    proof {
        if n >= 16 {
            assert(old(text)@ + hex(n as nat) =~= old(text)@ + hex((n / 16) as nat) + seq![
                hex_digit((n % 16) as nat),
            ]);
        } else {
            assert(old(text)@ + hex(n as nat) =~= old(text)@ + seq![hex_digit(n as nat)]);
        }
    }
}

/// An exit code as the timeline shows it: `0x` and lowercase hexadecimal digits.
pub fn exit_code_text(exit_code: u32) -> (text: String)
    ensures
        text@ == "0x"@ + hex(exit_code as nat),
{
    let mut text = owned("0x");
    push_hex(&mut text, exit_code);
    text
}

/// After a relaunch: the item's new runtime, and whether it keeps being watched. The pilot
/// may have reopened it during the delay, which counts as running but not opened by AutoStart.
pub fn relaunch_result(outcome: &LaunchOutcome, item_id: &str) -> (result: (ItemRuntime, bool))
    ensures
        result.0@.item_id == item_id@,
        match outcome {
            LaunchOutcome::Launched | LaunchOutcome::AppLaunched(_) => result.0@.status
                == ItemStatus::Running && result.0@.launched_by_app && result.0@.error is None
                && result.1,
            LaunchOutcome::AlreadyRunning => result.0@.status == ItemStatus::Running
                && !result.0@.launched_by_app && result.0@.error is None && result.1,
            LaunchOutcome::Failed(error) => result.0@.status == ItemStatus::Error
                && !result.0@.launched_by_app && (result.0@.error matches Some(payload)
                && payload.kind == error_kind(*error) && payload.message == error_message(*error))
                && !result.1,
        },
{
    match outcome {
        LaunchOutcome::Launched | LaunchOutcome::AppLaunched(_) => (
            runtime(item_id, ItemStatus::Running, true),
            true,
        ),
        LaunchOutcome::AlreadyRunning => (runtime(item_id, ItemStatus::Running, false), true),
        LaunchOutcome::Failed(error) => {
            let mut failed = runtime(item_id, ItemStatus::Error, false);
            failed.error = Some(error.payload());
            (failed, false)
        },
    }
}

} // verus!
