//! The order in which a session opens its items.
use vstd::prelude::*;

use crate::models::{ItemRuntime, ItemStatus, LaunchItem, LaunchItemView};

verus! {

/// The items that open right away (those that do not wait for SimConnect), in order.
pub open spec fn immediate_items(items: Seq<LaunchItemView>) -> Seq<LaunchItemView>
    decreases items.len(),
{
    if items.len() == 0 {
        Seq::empty()
    } else {
        let rest = immediate_items(items.drop_last());
        if items.last().waits_for_sim_connect() {
            rest
        } else {
            rest.push(items.last())
        }
    }
}

/// The items that wait for SimConnect, in order.
pub open spec fn deferred_items(items: Seq<LaunchItemView>) -> Seq<LaunchItemView>
    decreases items.len(),
{
    if items.len() == 0 {
        Seq::empty()
    } else {
        let rest = deferred_items(items.drop_last());
        if items.last().waits_for_sim_connect() {
            rest.push(items.last())
        } else {
            rest
        }
    }
}

/// Items that need SimConnect move to a second phase; each phase keeps the list order.
pub fn split_launch_phases(items: Vec<LaunchItem>) -> (phases: (Vec<LaunchItem>, Vec<LaunchItem>))
    ensures
        phases.0.deep_view() == immediate_items(items.deep_view()),
        phases.1.deep_view() == deferred_items(items.deep_view()),
{
    let ghost all = items.deep_view();
    let mut immediate: Vec<LaunchItem> = Vec::new();
    let mut deferred: Vec<LaunchItem> = Vec::new();
    let mut i: usize = 0;
    while i < items.len()
        invariant
            all == items.deep_view(),
            i <= all.len(),
            immediate.deep_view() == immediate_items(all.take(i as int)),
            deferred.deep_view() == deferred_items(all.take(i as int)),
        decreases all.len() - i,
    {
        assert(all.take(i + 1).drop_last() =~= all.take(i as int));
        assert(all[i as int] == items@[i as int]@);
        let item = items[i].clone();
        let waits = match &item {
            LaunchItem::App(app) => app.wait_for_sim_connect,
            LaunchItem::Url(_) => false,
        };
        if waits {
            let ghost before = deferred.deep_view();
            deferred.push(item);
            assert(deferred.deep_view() =~= before.push(all[i as int]));
        } else {
            let ghost before = immediate.deep_view();
            immediate.push(item);
            assert(immediate.deep_view() =~= before.push(all[i as int]));
        }
        i = i + 1;
    }
    assert(all.take(i as int) =~= all);
    (immediate, deferred)
}

/// The items of a flight start that open before the simulator is started, in order.
pub open spec fn before_simulator_items(items: Seq<LaunchItemView>) -> Seq<LaunchItemView>
    decreases items.len(),
{
    if items.len() == 0 {
        Seq::empty()
    } else {
        let rest = before_simulator_items(items.drop_last());
        if items.last().opens_before_simulator() {
            rest.push(items.last())
        } else {
            rest
        }
    }
}

/// The items of a flight start that open once the simulator runs, in order.
pub open spec fn after_simulator_items(items: Seq<LaunchItemView>) -> Seq<LaunchItemView>
    decreases items.len(),
{
    if items.len() == 0 {
        Seq::empty()
    } else {
        let rest = after_simulator_items(items.drop_last());
        if items.last().opens_before_simulator() {
            rest
        } else {
            rest.push(items.last())
        }
    }
}

/// When AutoStart starts the simulator, apps marked to open before it go first; each part
/// keeps the list order.
pub fn split_flight_phases(items: Vec<LaunchItem>) -> (phases: (Vec<LaunchItem>, Vec<LaunchItem>))
    ensures
        phases.0.deep_view() == before_simulator_items(items.deep_view()),
        phases.1.deep_view() == after_simulator_items(items.deep_view()),
{
    let ghost all = items.deep_view();
    let mut before: Vec<LaunchItem> = Vec::new();
    let mut after: Vec<LaunchItem> = Vec::new();
    let mut i: usize = 0;
    while i < items.len()
        invariant
            all == items.deep_view(),
            i <= all.len(),
            before.deep_view() == before_simulator_items(all.take(i as int)),
            after.deep_view() == after_simulator_items(all.take(i as int)),
        decreases all.len() - i,
    {
        assert(all.take(i + 1).drop_last() =~= all.take(i as int));
        assert(all[i as int] == items@[i as int]@);
        let item = items[i].clone();
        let first = match &item {
            LaunchItem::App(app) => app.launch_before_simulator,
            LaunchItem::Url(_) => false,
        };
        if first {
            let ghost was = before.deep_view();
            before.push(item);
            assert(before.deep_view() =~= was.push(all[i as int]));
        } else {
            let ghost was = after.deep_view();
            after.push(item);
            assert(after.deep_view() =~= was.push(all[i as int]));
        }
        i = i + 1;
    }
    assert(all.take(i as int) =~= all);
    (before, after)
}

/// Splitting the items for SimConnect loses none and adds none: the first phase holds exactly
/// the items that do not wait for SimConnect and the second those that do, each in list
/// order.
pub proof fn lemma_launch_phases_partition(items: Seq<LaunchItemView>)
    ensures
        immediate_items(items).len() + deferred_items(items).len() == items.len(),
        forall|k: int|
            0 <= k < immediate_items(items).len() ==> !(#[trigger] immediate_items(items)[k]).waits_for_sim_connect(),
        forall|k: int|
            0 <= k < deferred_items(items).len() ==> (#[trigger] deferred_items(items)[k]).waits_for_sim_connect(),
        forall|i: int|
            0 <= i < items.len() ==> (#[trigger] items[i].waits_for_sim_connect() ==> deferred_items(items).contains(items[i]))
                && (!items[i].waits_for_sim_connect() ==> immediate_items(items).contains(items[i])),
    decreases items.len(),
{
    if items.len() > 0 {
        let rest = items.drop_last();
        lemma_launch_phases_partition(rest);
        let last = items.last();
        let im = immediate_items(rest);
        let de = deferred_items(rest);
        assert forall|i: int| 0 <= i < items.len() implies (#[trigger] items[i].waits_for_sim_connect()
            ==> deferred_items(items).contains(items[i])) && (!items[i].waits_for_sim_connect()
            ==> immediate_items(items).contains(items[i])) by {
            if i < items.len() - 1 {
                assert(items[i] == rest[i]);
                if rest[i].waits_for_sim_connect() {
                    let k = choose|k: int| 0 <= k < de.len() && de[k] == rest[i];
                    if last.waits_for_sim_connect() {
                        assert(deferred_items(items)[k] == de[k]);
                    } else {
                        assert(deferred_items(items) == de);
                    }
                } else {
                    let k = choose|k: int| 0 <= k < im.len() && im[k] == rest[i];
                    if last.waits_for_sim_connect() {
                        assert(immediate_items(items) == im);
                    } else {
                        assert(immediate_items(items)[k] == im[k]);
                    }
                }
            } else if last.waits_for_sim_connect() {
                assert(deferred_items(items)[de.len() as int] == last);
            } else {
                assert(immediate_items(items)[im.len() as int] == last);
            }
        }
    }
}

/// Splitting the items for a flight start loses none and adds none: the first part holds
/// exactly the apps that open before the simulator and the second everything else.
pub proof fn lemma_flight_phases_partition(items: Seq<LaunchItemView>)
    ensures
        before_simulator_items(items).len() + after_simulator_items(items).len() == items.len(),
        forall|k: int|
            0 <= k < before_simulator_items(items).len() ==> (#[trigger] before_simulator_items(items)[k]).opens_before_simulator(),
        forall|k: int|
            0 <= k < after_simulator_items(items).len() ==> !(#[trigger] after_simulator_items(items)[k]).opens_before_simulator(),
    decreases items.len(),
{
    if items.len() > 0 {
        lemma_flight_phases_partition(items.drop_last());
    }
}

/// A runtime with a status and nothing else.
pub fn status(item_id: &str, item_status: ItemStatus) -> (runtime: ItemRuntime)
    ensures
        runtime@.item_id == item_id@,
        runtime@.status == item_status,
        !runtime@.launched_by_app,
        runtime@.error is None,
{
    ItemRuntime {
        item_id: crate::text::owned(item_id),
        status: item_status,
        launched_by_app: false,
        error: None,
    }
}

/// Crashes are watched for items that ask for it, outside test sessions.
pub fn watches_crashes(item: &LaunchItem, is_test: bool) -> (watches: bool)
    ensures
        watches == (item@ matches LaunchItemView::App(app) && app.restart_on_crash && !is_test),
{
    match item {
        LaunchItem::App(app) => app.restart_on_crash && !is_test,
        LaunchItem::Url(_) => false,
    }
}

/// What the second phase waits for before the SimConnect items open.
#[derive(Debug, Clone, Copy, PartialEq, Eq, Structural)]
pub enum SimConnectWait {
    /// The simulator has no SimConnect: the items open right away.
    NotSupported,
    /// A test skips the wait, and says so in the timeline.
    SkippedForTest,
    /// The items show as waiting until SimConnect answers or the wait times out.
    Wait,
}

pub fn simconnect_wait(supports_simconnect: bool, is_test: bool) -> (wait: SimConnectWait)
    ensures
        !supports_simconnect ==> wait == SimConnectWait::NotSupported,
        supports_simconnect && is_test ==> wait == SimConnectWait::SkippedForTest,
        supports_simconnect && !is_test ==> wait == SimConnectWait::Wait,
{
    if !supports_simconnect {
        SimConnectWait::NotSupported
    } else if is_test {
        SimConnectWait::SkippedForTest
    } else {
        SimConnectWait::Wait
    }
}

} // verus!
