//! Closing the apps of a session: what to close, and what each outcome means for the item.
use vstd::prelude::*;

use crate::error::{error_kind, error_message, AppError};
use crate::models::{AppItem, AppItemView, ItemRuntime, ItemStatus, OnClose, TimelineKind};

verus! {

/// One app to close when a session ends.
#[derive(Debug, PartialEq, Eq)]
pub struct CloseTarget {
    pub item_id: String,
    pub process_name: String,
    pub on_close: OnClose,
}

pub struct CloseTargetView {
    pub item_id: Seq<char>,
    pub process_name: Seq<char>,
    pub on_close: OnClose,
}

impl View for CloseTarget {
    type V = CloseTargetView;

    open spec fn view(&self) -> CloseTargetView {
        CloseTargetView {
            item_id: self.item_id@,
            process_name: self.process_name@,
            on_close: self.on_close,
        }
    }
}

impl DeepView for CloseTarget {
    type V = CloseTargetView;

    open spec fn deep_view(&self) -> CloseTargetView {
        self@
    }
}

impl Clone for CloseTarget {
    fn clone(&self) -> (copy: Self)
        ensures
            copy@ == self@,
    {
        CloseTarget {
            item_id: self.item_id.clone(),
            process_name: self.process_name.clone(),
            on_close: self.on_close,
        }
    }
}

pub open spec fn target_of(item: AppItemView) -> CloseTargetView {
    CloseTargetView { item_id: item.id, process_name: item.process_name, on_close: item.on_close }
}

impl CloseTarget {
    pub fn from_app_item(item: &AppItem) -> (target: Self)
        ensures
            target@ == target_of(item@),
    {
        CloseTarget {
            item_id: item.id.clone(),
            process_name: item.process_name.clone(),
            on_close: item.on_close,
        }
    }
}

#[derive(Debug, PartialEq, Eq)]
pub enum CloseOutcome {
    ClosedGracefully,
    ForceClosed,
    NotRunning,
    Kept,
    Failed(AppError),
}

/// The first thing to do for a target: keep it, note that it is not running, or close it
/// forcibly or politely.
#[derive(Debug, Clone, Copy, PartialEq, Eq, Structural)]
pub enum CloseStep {
    Keep,
    NotRunning,
    Terminate,
    RequestClose,
}

pub open spec fn close_step_spec(on_close: OnClose, running: bool) -> CloseStep {
    if on_close == OnClose::Keep {
        CloseStep::Keep
    } else if !running {
        CloseStep::NotRunning
    } else if on_close == OnClose::Force {
        CloseStep::Terminate
    } else {
        CloseStep::RequestClose
    }
}

/// Each app is closed as the pilot chose: a kept app is never touched, an app that is not
/// running needs nothing, a running app set to Force is terminated at once, and a running app
/// set to Graceful is asked to close like clicking its X.
pub proof fn lemma_close_step_follows_the_choice(on_close: OnClose, running: bool)
    ensures
        (close_step_spec(on_close, running) == CloseStep::Keep) == (on_close == OnClose::Keep),
        (close_step_spec(on_close, running) == CloseStep::NotRunning) == (on_close != OnClose::Keep
            && !running),
        (close_step_spec(on_close, running) == CloseStep::Terminate) == (on_close == OnClose::Force
            && running),
        (close_step_spec(on_close, running) == CloseStep::RequestClose) == (on_close == OnClose::Graceful
            && running),
{
}

/// Kept apps are never touched; otherwise an app that is not running needs nothing.
pub fn close_step(on_close: OnClose, running: bool) -> (step: CloseStep)
    ensures
        step == close_step_spec(on_close, running),
        (step == CloseStep::Keep) == (on_close == OnClose::Keep),
        (step == CloseStep::NotRunning) == (on_close != OnClose::Keep && !running),
        (step == CloseStep::Terminate) == (on_close == OnClose::Force && running),
        (step == CloseStep::RequestClose) == (on_close == OnClose::Graceful && running),
{
    if on_close == OnClose::Keep {
        CloseStep::Keep
    } else if !running {
        CloseStep::NotRunning
    } else if on_close == OnClose::Force {
        CloseStep::Terminate
    } else {
        CloseStep::RequestClose
    }
}

/// How many 250 ms polls fit in the graceful timeout.
pub fn exit_poll_attempts(graceful_timeout_ms: u64) -> (attempts: u64)
    ensures
        attempts == graceful_timeout_ms / 250,
{
    graceful_timeout_ms / 250
}

/// The pids of `pids`, in order, that `alive` still holds.
pub open spec fn pids_alive(pids: Seq<u32>, alive: Seq<u32>) -> Seq<u32>
    decreases pids.len(),
{
    if pids.len() == 0 {
        Seq::empty()
    } else {
        let rest = pids_alive(pids.drop_last(), alive);
        if alive.contains(pids.last()) {
            rest.push(pids.last())
        } else {
            rest
        }
    }
}

/// The pids of the first list that the second still holds.
pub fn still_running(pids: &[u32], alive: &[u32]) -> (left: Vec<u32>)
    ensures
        left@ == pids_alive(pids@, alive@),
{
    let mut left: Vec<u32> = Vec::new();
    let mut i: usize = 0;
    while i < pids.len()
        invariant
            i <= pids@.len(),
            left@ == pids_alive(pids@.take(i as int), alive@),
        decreases pids@.len() - i,
    {
        let pid = pids[i];
        let mut found = false;
        let mut j: usize = 0;
        while j < alive.len()
            invariant
                j <= alive@.len(),
                found == exists|k: int| 0 <= k < j && alive@[k] == pid,
            decreases alive@.len() - j,
        {
            if alive[j] == pid {
                found = true;
            }
            j = j + 1;
        }
        assert(found == alive@.contains(pid));
        assert(pids@.take(i + 1).drop_last() =~= pids@.take(i as int));
        if found {
            left.push(pid);
        }
        i = i + 1;
    }
    assert(pids@.take(i as int) =~= pids@);
    left
}

pub open spec fn outcome_status(outcome: CloseOutcome) -> ItemStatus {
    match outcome {
        CloseOutcome::ClosedGracefully | CloseOutcome::ForceClosed | CloseOutcome::NotRunning => ItemStatus::Closed,
        CloseOutcome::Kept => ItemStatus::Skipped,
        CloseOutcome::Failed(_) => ItemStatus::Error,
    }
}

/// The timeline entry a close outcome writes.
pub open spec fn close_kind(outcome: CloseOutcome) -> TimelineKind {
    match outcome {
        CloseOutcome::ClosedGracefully => TimelineKind::ClosedGracefully,
        CloseOutcome::ForceClosed => TimelineKind::ForceClosed,
        CloseOutcome::NotRunning => TimelineKind::NotRunning,
        CloseOutcome::Kept => TimelineKind::Kept,
        CloseOutcome::Failed(_) => TimelineKind::Error,
    }
}

/// A closed, force-closed or vanished app counts as closed, a kept one as skipped and a
/// failure as an error; each outcome writes its own kind of timeline entry.
pub proof fn lemma_close_outcome_reports(outcome: CloseOutcome)
    ensures
        (outcome_status(outcome) == ItemStatus::Closed) == (outcome is ClosedGracefully
            || outcome is ForceClosed || outcome is NotRunning),
        (outcome_status(outcome) == ItemStatus::Skipped) == (outcome is Kept),
        (outcome_status(outcome) == ItemStatus::Error) == (outcome is Failed),
        (close_kind(outcome) == TimelineKind::ClosedGracefully) == (outcome is ClosedGracefully),
        (close_kind(outcome) == TimelineKind::ForceClosed) == (outcome is ForceClosed),
        (close_kind(outcome) == TimelineKind::NotRunning) == (outcome is NotRunning),
        (close_kind(outcome) == TimelineKind::Kept) == (outcome is Kept),
        (close_kind(outcome) == TimelineKind::Error) == (outcome is Failed),
{
}

impl CloseOutcome {
    pub fn timeline_kind(&self) -> (kind: TimelineKind)
        ensures
            kind == close_kind(*self),
    {
        match self {
            CloseOutcome::ClosedGracefully => TimelineKind::ClosedGracefully,
            CloseOutcome::ForceClosed => TimelineKind::ForceClosed,
            CloseOutcome::NotRunning => TimelineKind::NotRunning,
            CloseOutcome::Kept => TimelineKind::Kept,
            CloseOutcome::Failed(_) => TimelineKind::Error,
        }
    }

    /// Closed, not running and force-closed apps count as closed; kept ones as skipped.
    pub fn into_runtime(self, item_id: &str) -> (runtime: ItemRuntime)
        ensures
            runtime@.item_id == item_id@,
            runtime@.status == outcome_status(self),
            !runtime@.launched_by_app,
            match self {
                CloseOutcome::Failed(error) => runtime@.error matches Some(payload) && payload.kind
                    == error_kind(error) && payload.message == error_message(error),
                _ => runtime@.error is None,
            },
    {
        let (status, error) = match self {
            CloseOutcome::ClosedGracefully | CloseOutcome::ForceClosed | CloseOutcome::NotRunning => (
                ItemStatus::Closed,
                None,
            ),
            CloseOutcome::Kept => (ItemStatus::Skipped, None),
            CloseOutcome::Failed(error) => (ItemStatus::Error, Some(error.payload())),
        };
        ItemRuntime {
            item_id: crate::text::owned(item_id),
            status,
            launched_by_app: false,
            error,
        }
    }
}

/// Whether an id has a result.
pub open spec fn has_result(results: Seq<(String, CloseOutcome)>, id: Seq<char>) -> bool {
    exists|i: int| 0 <= i < results.len() && (#[trigger] results[i]).0@ == id
}

/// The results after the targets are gone through in order: a target whose id has no result
/// yet gets a timeout failure naming its process.
pub open spec fn timed_out(results: Seq<(String, CloseOutcome)>, targets: Seq<CloseTarget>) -> Seq<
    (String, CloseOutcome),
>
    decreases targets.len(),
{
    if targets.len() == 0 {
        results
    } else {
        let before = timed_out(results, targets.drop_last());
        let target = targets.last();
        if has_result(before, target.item_id@) {
            before
        } else {
            before.push((target.item_id, CloseOutcome::Failed(AppError::CloseTimedOut(target.process_name))))
        }
    }
}

/// The results of the close tasks that finished, then one timeout failure for each target
/// without a result, in target order.
pub fn with_timeouts(
    results: Vec<(String, CloseOutcome)>,
    targets: &[CloseTarget],
) -> (all: Vec<(String, CloseOutcome)>)
    ensures
        all@ == timed_out(results@, targets@),
{
    let ghost finished = results@;
    let mut all = results;
    let mut t: usize = 0;
    while t < targets.len()
        invariant
            t <= targets@.len(),
            all@ == timed_out(finished, targets@.take(t as int)),
        decreases targets@.len() - t,
    {
        let target = &targets[t];
        let mut found = false;
        let mut i: usize = 0;
        while i < all.len()
            invariant
                i <= all@.len(),
                found == exists|j: int| 0 <= j < i && (#[trigger] all@[j]).0@ == target.item_id@,
            decreases all@.len() - i,
        {
            if crate::text::same_text(all[i].0.as_str(), target.item_id.as_str()) {
                found = true;
            }
            i = i + 1;
        }
        assert(targets@.take(t + 1).drop_last() =~= targets@.take(t as int));
        assert(targets@.take(t + 1).last() == targets@[t as int]);
        if !found {
            let timeout = AppError::CloseTimedOut(target.process_name.clone());
            all.push((target.item_id.clone(), CloseOutcome::Failed(timeout)));
        }
        t = t + 1;
    }
    assert(targets@.take(targets@.len() as int) =~= targets@);
    all
}

/// Going through the targets keeps the finished results first, gives every target's id a
/// result, and adds only timeouts for targets, each under an id that had none before it.
pub proof fn lemma_timeouts_shape(results: Seq<(String, CloseOutcome)>, targets: Seq<CloseTarget>)
    ensures
        timed_out(results, targets).len() >= results.len(),
        timed_out(results, targets).take(results.len() as int) == results,
        forall|t: int|
            0 <= t < targets.len() ==> has_result(timed_out(results, targets), #[trigger] targets[t].item_id@),
        forall|i: int, j: int|
            results.len() <= i < timed_out(results, targets).len() && 0 <= j < i ==> (#[trigger] timed_out(
                results,
                targets,
            )[j]).0@ != (#[trigger] timed_out(results, targets)[i]).0@,
        forall|i: int|
            results.len() <= i < timed_out(results, targets).len() ==> exists|t: int|
                0 <= t < targets.len() && (#[trigger] timed_out(results, targets)[i]).0@ == targets[t].item_id@,
    decreases targets.len(),
{
    if targets.len() > 0 {
        let rest = targets.drop_last();
        lemma_timeouts_shape(results, rest);
        let before = timed_out(results, rest);
        let all = timed_out(results, targets);
        let target = targets.last();
        let added = !has_result(before, target.item_id@);
        if added {
            assert(all[all.len() - 1].0@ == target.item_id@);
            assert(all.take(results.len() as int) =~= before.take(results.len() as int));
        }
        assert forall|t: int| 0 <= t < targets.len() implies has_result(all, #[trigger] targets[t].item_id@) by {
            if t < targets.len() - 1 {
                assert(rest[t] == targets[t]);
                let j = choose|j: int| 0 <= j < before.len() && (#[trigger] before[j]).0@ == rest[t].item_id@;
                assert(all[j] == before[j]);
            } else if added {
                assert(all[all.len() - 1].0@ == targets[t].item_id@);
            }
        }
        assert forall|i: int, j: int| results.len() <= i < all.len() && 0 <= j < i implies (#[trigger] all[j]).0@
            != (#[trigger] all[i]).0@ by {
            if i < before.len() {
                assert(all[i] == before[i] && all[j] == before[j]);
            } else {
                assert(all[j] == before[j]);
                if before[j].0@ == target.item_id@ {
                    assert(has_result(before, target.item_id@));
                }
            }
        }
        assert forall|i: int| results.len() <= i < all.len() implies exists|t: int|
            0 <= t < targets.len() && (#[trigger] all[i]).0@ == targets[t].item_id@ by {
            if i < before.len() {
                assert(all[i] == before[i]);
                let t = choose|t: int| 0 <= t < rest.len() && (#[trigger] before[i]).0@ == rest[t].item_id@;
                assert(rest[t] == targets[t]);
            } else {
                assert(all[i].0@ == targets[targets.len() - 1].item_id@);
            }
        }
    }
}

/// When the finished results have distinct ids, all of targets, each target ends up with
/// exactly one result and no other id has one.
pub proof fn lemma_one_result_per_target(results: Seq<(String, CloseOutcome)>, targets: Seq<CloseTarget>)
    requires
        forall|a: int, b: int| 0 <= a < b < results.len() ==> (#[trigger] results[a]).0@ != (#[trigger] results[b]).0@,
        forall|i: int|
            0 <= i < results.len() ==> exists|t: int| 0 <= t < targets.len() && (#[trigger] results[i]).0@ == targets[t].item_id@,
    ensures
        forall|a: int, b: int|
            0 <= a < b < timed_out(results, targets).len() ==> (#[trigger] timed_out(results, targets)[a]).0@
                != (#[trigger] timed_out(results, targets)[b]).0@,
        forall|i: int|
            0 <= i < timed_out(results, targets).len() ==> exists|t: int|
                0 <= t < targets.len() && (#[trigger] timed_out(results, targets)[i]).0@ == targets[t].item_id@,
        forall|t: int|
            0 <= t < targets.len() ==> has_result(timed_out(results, targets), #[trigger] targets[t].item_id@),
{
    lemma_timeouts_shape(results, targets);
    let all = timed_out(results, targets);
    assert forall|i: int| 0 <= i < results.len() implies all[i] == results[i] by {
        assert(all.take(results.len() as int)[i] == all[i]);
    }
    assert forall|a: int, b: int| 0 <= a < b < all.len() implies (#[trigger] all[a]).0@ != (#[trigger] all[b]).0@ by {
        if b < results.len() {
            assert(all[a] == results[a] && all[b] == results[b]);
        }
    }
    assert forall|i: int| 0 <= i < all.len() implies exists|t: int|
        0 <= t < targets.len() && (#[trigger] all[i]).0@ == targets[t].item_id@ by {
        if i < results.len() {
            assert(all[i] == results[i]);
        }
    }
}

} // verus!
