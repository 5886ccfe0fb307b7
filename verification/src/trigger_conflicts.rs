//! At most one enabled profile watches a simulator.
use vstd::prelude::*;

use crate::models::{Profile, ProfileView};
use crate::processes::{normalize_process_name, normalized, same_process_name};
use crate::text::same_text;

verus! {

/// The normalized process name of each trigger of a profile.
pub open spec fn names_of(profile: ProfileView) -> Seq<Seq<char>> {
    profile.triggers.map_values(|t: crate::models::TriggerView| normalized(t.process_name))
}

/// Two profiles watch a common simulator.
pub open spec fn shares(first: ProfileView, second: ProfileView) -> bool {
    exists|i: int, j: int|
        0 <= i < first.triggers.len() && 0 <= j < second.triggers.len() && normalized(
            #[trigger] first.triggers[i].process_name,
        ) == normalized(#[trigger] second.triggers[j].process_name)
}

fn trigger_names(profile: &Profile) -> (names: Vec<String>)
    ensures
        names.deep_view() == names_of(profile@),
{
    let mut names: Vec<String> = Vec::new();
    let mut i: usize = 0;
    while i < profile.triggers.len()
        invariant
            i <= profile.triggers@.len(),
            names.deep_view() == names_of(profile@).take(i as int),
        decreases profile.triggers@.len() - i,
    {
        let ghost before = names.deep_view();
        assert(profile@.triggers[i as int] == profile.triggers@[i as int]@);
        names.push(normalize_process_name(profile.triggers[i].process_name.as_str()));
        assert(names.deep_view() =~= before.push(normalized(profile@.triggers[i as int].process_name)));
        assert(names_of(profile@).take(i + 1) =~= names_of(profile@).take(i as int).push(
            names_of(profile@)[i as int],
        ));
        i = i + 1;
    }
    assert(names_of(profile@).take(i as int) =~= names_of(profile@));
    names
}

pub fn shares_trigger(first: &Profile, second: &Profile) -> (shared: bool)
    ensures
        shared == shares(first@, second@),
{
    let mut i: usize = 0;
    while i < first.triggers.len()
        invariant
            i <= first.triggers@.len(),
            forall|a: int, b: int|
                0 <= a < i && 0 <= b < second@.triggers.len() ==> normalized(
                    #[trigger] first@.triggers[a].process_name,
                ) != normalized(#[trigger] second@.triggers[b].process_name),
        decreases first.triggers@.len() - i,
    {
        let mut j: usize = 0;
        while j < second.triggers.len()
            invariant
                i < first.triggers@.len(),
                j <= second.triggers@.len(),
                forall|a: int, b: int|
                    0 <= a < i && 0 <= b < second@.triggers.len() ==> normalized(
                        #[trigger] first@.triggers[a].process_name,
                    ) != normalized(#[trigger] second@.triggers[b].process_name),
                forall|b: int|
                    0 <= b < j ==> normalized(first@.triggers[i as int].process_name) != normalized(
                        #[trigger] second@.triggers[b].process_name,
                    ),
            decreases second.triggers@.len() - j,
        {
            assert(first@.triggers[i as int] == first.triggers@[i as int]@);
            assert(second@.triggers[j as int] == second.triggers@[j as int]@);
            if same_process_name(
                first.triggers[i].process_name.as_str(),
                second.triggers[j].process_name.as_str(),
            ) {
                assert(normalized(first@.triggers[i as int].process_name) == normalized(
                    second@.triggers[j as int].process_name,
                ));
                return true;
            }
            j = j + 1;
        }
        i = i + 1;
    }
    false
}

/// The first enabled profile with that id.
pub open spec fn enabled_with_id(profiles: Seq<ProfileView>, id: Seq<char>) -> Option<int>
    decreases profiles.len(),
{
    if profiles.len() == 0 {
        None
    } else {
        match enabled_with_id(profiles.drop_last(), id) {
            Some(i) => Some(i),
            None => if profiles.last().id == id && profiles.last().enabled {
                Some(profiles.len() - 1)
            } else {
                None
            },
        }
    }
}

/// The ids, in order, of the other enabled profiles that share a trigger with `winner`.
pub open spec fn conflicting_ids(profiles: Seq<ProfileView>, winner: ProfileView, winner_id: Seq<char>) -> Seq<
    Seq<char>,
>
    decreases profiles.len(),
{
    if profiles.len() == 0 {
        Seq::empty()
    } else {
        let rest = conflicting_ids(profiles.drop_last(), winner, winner_id);
        let p = profiles.last();
        if p.id != winner_id && p.enabled && shares(winner, p) {
            rest.push(p.id)
        } else {
            rest
        }
    }
}

/// What `profiles_to_disable` returns: nothing without an enabled winner.
pub open spec fn to_disable(profiles: Seq<ProfileView>, winner_id: Seq<char>) -> Seq<Seq<char>> {
    match enabled_with_id(profiles, winner_id) {
        Some(w) => conflicting_ids(profiles, profiles[w], winner_id),
        None => Seq::empty(),
    }
}

/// The first enabled profile with an id is enabled and has that id.
pub proof fn lemma_enabled_with_id_bounds(profiles: Seq<ProfileView>, id: Seq<char>)
    ensures
        match enabled_with_id(profiles, id) {
            Some(i) => 0 <= i < profiles.len() && profiles[i].id == id && profiles[i].enabled,
            None => true,
        },
    decreases profiles.len(),
{
    if profiles.len() > 0 {
        lemma_enabled_with_id_bounds(profiles.drop_last(), id);
    }
}

proof fn lemma_enabled_with_id_prefix(profiles: Seq<ProfileView>, id: Seq<char>, i: int)
    requires
        0 <= i < profiles.len(),
        enabled_with_id(profiles.take(i + 1), id) == Some(i),
    ensures
        enabled_with_id(profiles, id) == Some(i),
    decreases profiles.len(),
{
    if profiles.len() > i + 1 {
        assert(profiles.drop_last().take(i + 1) =~= profiles.take(i + 1));
        lemma_enabled_with_id_prefix(profiles.drop_last(), id, i);
    } else {
        assert(profiles.take(i + 1) =~= profiles);
    }
}

/// Ids of the other enabled profiles that would watch one of the winner's triggers.
pub fn profiles_to_disable(profiles: &[Profile], winner_id: &str) -> (ids: Vec<String>)
    ensures
        ids.deep_view() == to_disable(profiles.deep_view(), winner_id@),
{
    let ghost all = profiles.deep_view();
    let mut winner: Option<usize> = None;
    let mut i: usize = 0;
    while i < profiles.len() && winner.is_none()
        invariant
            all == profiles.deep_view(),
            i <= all.len(),
            winner is None ==> enabled_with_id(all.take(i as int), winner_id@) is None,
            winner matches Some(w) ==> w < all.len() && enabled_with_id(all, winner_id@) == Some(w as int),
        decreases all.len() - i,
    {
        assert(all.take(i + 1).drop_last() =~= all.take(i as int));
        assert(all[i as int] == profiles@[i as int]@);
        if profiles[i].enabled && same_text(profiles[i].id.as_str(), winner_id) {
            proof {
                lemma_enabled_with_id_prefix(all, winner_id@, i as int);
            }
            winner = Some(i);
        }
        i = i + 1;
    }
    let w = match winner {
        Some(w) => w,
        None => {
            assert(all.take(i as int) =~= all);
            return Vec::new();
        },
    };
    assert(all[w as int] == profiles@[w as int]@);
    let mut ids: Vec<String> = Vec::new();
    let mut k: usize = 0;
    while k < profiles.len()
        invariant
            all == profiles.deep_view(),
            w < all.len(),
            enabled_with_id(all, winner_id@) == Some(w as int),
            k <= all.len(),
            ids.deep_view() == conflicting_ids(all.take(k as int), all[w as int], winner_id@),
        decreases all.len() - k,
    {
        assert(all.take(k + 1).drop_last() =~= all.take(k as int));
        assert(all[k as int] == profiles@[k as int]@);
        assert(all[w as int] == profiles@[w as int]@);
        let p = &profiles[k];
        if !same_text(p.id.as_str(), winner_id) && p.enabled && shares_trigger(&profiles[w], p) {
            let ghost before = ids.deep_view();
            ids.push(p.id.clone());
            assert(ids.deep_view() =~= before.push(p@.id));
        }
        k = k + 1;
    }
    assert(all.take(k as int) =~= all);
    ids
}

/// Every profile whose id is listed is disabled; nothing else changes.
pub fn disable(profiles: &mut Vec<Profile>, ids: &[String])
    ensures
        final(profiles)@.len() == old(profiles)@.len(),
        forall|i: int|
            0 <= i < old(profiles)@.len() ==> #[trigger] final(profiles).deep_view()[i] == (ProfileView {
                enabled: old(profiles).deep_view()[i].enabled && !ids.deep_view().contains(
                    old(profiles).deep_view()[i].id,
                ),
                ..old(profiles).deep_view()[i]
            }),
{
    let ghost before = profiles.deep_view();
    let mut i: usize = 0;
    while i < profiles.len()
        invariant
            i <= profiles@.len(),
            profiles.deep_view().len() == before.len(),
            forall|j: int|
                0 <= j < i ==> #[trigger] profiles.deep_view()[j] == (ProfileView {
                    enabled: before[j].enabled && !ids.deep_view().contains(before[j].id),
                    ..before[j]
                }),
            forall|j: int| i <= j < before.len() ==> #[trigger] profiles.deep_view()[j] == before[j],
        decreases profiles@.len() - i,
    {
        let ghost current = profiles.deep_view();
        assert(current[i as int] == profiles@[i as int]@);
        let mut listed = false;
        let mut k: usize = 0;
        while k < ids.len()
            invariant
                k <= ids@.len(),
                i < profiles@.len(),
                listed == exists|m: int| 0 <= m < k && (#[trigger] ids.deep_view()[m]) == profiles@[i as int]@.id,
            decreases ids@.len() - k,
        {
            assert(ids.deep_view()[k as int] == ids@[k as int]@);
            if same_text(ids[k].as_str(), profiles[i].id.as_str()) {
                listed = true;
            }
            k = k + 1;
        }
        assert(listed == ids.deep_view().contains(before[i as int].id));
        if listed {
            let mut p = profiles[i].clone();
            p.enabled = false;
            profiles.set(i, p);
        }
        assert(profiles.deep_view() =~= current.update(
            i as int,
            ProfileView {
                enabled: before[i as int].enabled && !ids.deep_view().contains(before[i as int].id),
                ..before[i as int]
            },
        ));
        i = i + 1;
    }
}

/// The order in which conflicts are settled: the profiles with the preferred id first, then
/// the others, each group in sidebar order.
pub open spec fn settle_order(profiles: Seq<ProfileView>, preferred: Option<Seq<char>>) -> Seq<int> {
    preferred_positions(profiles, preferred, true, profiles.len() as int) + preferred_positions(
        profiles,
        preferred,
        false,
        profiles.len() as int,
    )
}

/// The positions below `n` whose id is (or is not) the preferred one, in order.
pub open spec fn preferred_positions(
    profiles: Seq<ProfileView>,
    preferred: Option<Seq<char>>,
    wanted: bool,
    n: int,
) -> Seq<int>
    decreases n,
{
    if n <= 0 {
        Seq::empty()
    } else {
        let rest = preferred_positions(profiles, preferred, wanted, n - 1);
        if (Some(profiles[n - 1].id) == preferred) == wanted {
            rest.push(n - 1)
        } else {
            rest
        }
    }
}

/// For each position of the settle order, whether that profile stays enabled: it was
/// enabled and shares no trigger with a profile kept before it.
pub open spec fn kept_flags(profiles: Seq<ProfileView>, order: Seq<int>, n: int) -> Seq<bool>
    decreases n,
{
    if n <= 0 {
        Seq::empty()
    } else {
        let before = kept_flags(profiles, order, n - 1);
        let p = profiles[order[n - 1]];
        before.push(
            p.enabled && forall|m: int|
                0 <= m < n - 1 && #[trigger] before[m] ==> !shares(profiles[order[m]], p),
        )
    }
}

/// The ids switched off, in settle order.
pub open spec fn switched_off(profiles: Seq<ProfileView>, order: Seq<int>, n: int) -> Seq<Seq<char>>
    decreases n,
{
    if n <= 0 {
        Seq::empty()
    } else {
        let rest = switched_off(profiles, order, n - 1);
        let p = profiles[order[n - 1]];
        if p.enabled && !kept_flags(profiles, order, n)[n - 1] {
            rest.push(p.id)
        } else {
            rest
        }
    }
}

proof fn lemma_kept_flags_len(profiles: Seq<ProfileView>, order: Seq<int>, n: int)
    requires
        n >= 0,
    ensures
        kept_flags(profiles, order, n).len() == n,
    decreases n,
{
    if n > 0 {
        lemma_kept_flags_len(profiles, order, n - 1);
    }
}

proof fn lemma_kept_flags_prefix(profiles: Seq<ProfileView>, order: Seq<int>, m: int, n: int)
    requires
        0 <= m < n,
    ensures
        kept_flags(profiles, order, n)[m] == kept_flags(profiles, order, m + 1)[m],
    decreases n,
{
    lemma_kept_flags_len(profiles, order, n - 1);
    if n > m + 1 {
        lemma_kept_flags_prefix(profiles, order, m, n - 1);
    }
}

proof fn lemma_preferred_positions(
    profiles: Seq<ProfileView>,
    preferred: Option<Seq<char>>,
    wanted: bool,
    n: int,
)
    requires
        0 <= n <= profiles.len(),
    ensures
        forall|k: int|
            0 <= k < preferred_positions(profiles, preferred, wanted, n).len() ==> {
                let p = #[trigger] preferred_positions(profiles, preferred, wanted, n)[k];
                0 <= p < n && (Some(profiles[p].id) == preferred) == wanted
            },
        forall|p: int|
            0 <= p < n && (Some(profiles[p].id) == preferred) == wanted ==> #[trigger] preferred_positions(
                profiles,
                preferred,
                wanted,
                n,
            ).contains(p),
        preferred_positions(profiles, preferred, wanted, n).no_duplicates(),
        forall|a: int, b: int|
            0 <= a < b < preferred_positions(profiles, preferred, wanted, n).len() ==> #[trigger] preferred_positions(
                profiles,
                preferred,
                wanted,
                n,
            )[a] < #[trigger] preferred_positions(profiles, preferred, wanted, n)[b],
    decreases n,
{
    if n > 0 {
        lemma_preferred_positions(profiles, preferred, wanted, n - 1);
        let rest = preferred_positions(profiles, preferred, wanted, n - 1);
        let all = preferred_positions(profiles, preferred, wanted, n);
        if (Some(profiles[n - 1].id) == preferred) == wanted {
            assert(all == rest.push(n - 1));
            assert forall|p: int|
                0 <= p < n && (Some(profiles[p].id) == preferred) == wanted implies #[trigger] all.contains(
                p,
            ) by {
                if p < n - 1 {
                    assert(rest.contains(p));
                    let k = choose|k: int| 0 <= k < rest.len() && rest[k] == p;
                    assert(all[k] == p);
                } else {
                    assert(all[rest.len() as int] == p);
                }
            }
        } else {
            assert(all == rest);
        }
    }
}

/// The settle order lists every position exactly once.
proof fn lemma_settle_order(profiles: Seq<ProfileView>, preferred: Option<Seq<char>>)
    ensures
        settle_order(profiles, preferred).len() == profiles.len(),
        forall|k: int|
            0 <= k < profiles.len() ==> 0 <= #[trigger] settle_order(profiles, preferred)[k] < profiles.len(),
        forall|a: int, b: int|
            0 <= a < b < profiles.len() ==> #[trigger] settle_order(profiles, preferred)[a] != #[trigger] settle_order(
                profiles,
                preferred,
            )[b],
        forall|p: int| 0 <= p < profiles.len() ==> #[trigger] settle_order(profiles, preferred).contains(p),
{
    let n = profiles.len() as int;
    let first = preferred_positions(profiles, preferred, true, n);
    let second = preferred_positions(profiles, preferred, false, n);
    lemma_preferred_positions(profiles, preferred, true, n);
    lemma_preferred_positions(profiles, preferred, false, n);
    let order = first + second;
    assert forall|p: int| 0 <= p < n implies #[trigger] order.contains(p) by {
        if Some(profiles[p].id) == preferred {
            assert(first.contains(p));
            let k = choose|k: int| 0 <= k < first.len() && first[k] == p;
            assert(order[k] == p);
        } else {
            assert(second.contains(p));
            let k = choose|k: int| 0 <= k < second.len() && second[k] == p;
            assert(order[first.len() + k] == p);
        }
    }
    assert forall|a: int, b: int| 0 <= a < b < order.len() implies #[trigger] order[a] != #[trigger] order[b] by {
        if b < first.len() {
        } else if a >= first.len() {
            assert(order[a] == second[a - first.len()]);
            assert(order[b] == second[b - first.len()]);
        } else {
            assert(order[a] == first[a]);
            assert(order[b] == second[b - first.len()]);
        }
    }
    // Every position is listed and no position twice, so the order has exactly n entries.
    let positions = Set::new(|p: int| 0 <= p < n);
    assert(order.to_set() =~= positions) by {
        assert forall|p: int| order.to_set().contains(p) implies positions.contains(p) by {
            let k = choose|k: int| 0 <= k < order.len() && order[k] == p;
            if k < first.len() {
                assert(order[k] == first[k]);
            } else {
                assert(order[k] == second[k - first.len()]);
            }
        }
    }
    assert(order.no_duplicates());
    order.unique_seq_to_set();
    assert(positions =~= vstd::set_lib::set_int_range(0, n));
    vstd::set_lib::lemma_int_range(0, n);
    assert forall|k: int| 0 <= k < order.len() implies 0 <= #[trigger] order[k] < n by {
        assert(order.to_set().contains(order[k]));
    }
}

/// The position of each index in the settle order.
fn settle_positions(profiles: &Vec<Profile>, preferred_id: Option<&str>) -> (order: Vec<usize>)
    ensures
        order@.map_values(|k: usize| k as int) == settle_order(profiles.deep_view(), preferred_id.deep_view()),
{
    let ghost all = profiles.deep_view();
    let ghost preferred = preferred_id.deep_view();
    let mut order: Vec<usize> = Vec::new();
    let mut round: usize = 0;
    while round < 2
        invariant
            all == profiles.deep_view(),
            preferred == preferred_id.deep_view(),
            round <= 2,
            round == 0 ==> order@.len() == 0,
            round == 1 ==> order@.map_values(|k: usize| k as int) == preferred_positions(all, preferred, true, all.len() as int),
            round == 2 ==> order@.map_values(|k: usize| k as int) == settle_order(all, preferred),
        decreases 2 - round,
    {
        let wanted = round == 0;
        let ghost start = order@.map_values(|k: usize| k as int);
        let mut i: usize = 0;
        while i < profiles.len()
            invariant
                all == profiles.deep_view(),
                preferred == preferred_id.deep_view(),
                round < 2,
                wanted == (round == 0),
                i <= all.len(),
                order@.map_values(|k: usize| k as int) == start + preferred_positions(all, preferred, wanted, i as int),
            decreases all.len() - i,
        {
            assert(all[i as int] == profiles@[i as int]@);
            let is_preferred = match preferred_id {
                Some(id) => same_text(profiles[i].id.as_str(), id),
                None => false,
            };
            assert(is_preferred == (Some(all[i as int].id) == preferred));
            if is_preferred == wanted {
                let ghost before = order@.map_values(|k: usize| k as int);
                order.push(i);
                assert(order@.map_values(|k: usize| k as int) =~= before.push(i as int));
                assert(start + preferred_positions(all, preferred, wanted, i + 1) =~= (start
                    + preferred_positions(all, preferred, wanted, i as int)).push(i as int));
            }
            i = i + 1;
        }
        proof {
            if round == 0 {
                assert(start =~= Seq::<int>::empty());
                assert(order@.map_values(|k: usize| k as int) =~= preferred_positions(all, preferred, true, all.len() as int));
            }
        }
        round = round + 1;
    }
    order
}

/// Whether any listed name is one of the profile's names.
fn overlaps(names: &[String], watched: &[String]) -> (overlap: bool)
    ensures
        overlap == exists|a: int, b: int|
            0 <= a < names@.len() && 0 <= b < watched@.len() && #[trigger] names.deep_view()[a]
                == #[trigger] watched.deep_view()[b],
{
    let mut a: usize = 0;
    while a < names.len()
        invariant
            a <= names@.len(),
            forall|x: int, y: int|
                0 <= x < a && 0 <= y < watched@.len() ==> #[trigger] names.deep_view()[x]
                    != #[trigger] watched.deep_view()[y],
        decreases names@.len() - a,
    {
        let mut b: usize = 0;
        while b < watched.len()
            invariant
                a < names@.len(),
                b <= watched@.len(),
                forall|x: int, y: int|
                    0 <= x < a && 0 <= y < watched@.len() ==> #[trigger] names.deep_view()[x]
                        != #[trigger] watched.deep_view()[y],
                forall|y: int| 0 <= y < b ==> names.deep_view()[a as int] != #[trigger] watched.deep_view()[y],
            decreases watched@.len() - b,
        {
            if same_text(names[a].as_str(), watched[b].as_str()) {
                assert(names.deep_view()[a as int] == watched.deep_view()[b as int]);
                return true;
            }
            b = b + 1;
        }
        a = a + 1;
    }
    false
}

/// The normalized names of the profiles kept so far.
pub open spec fn watched_names(
    profiles: Seq<ProfileView>,
    order: Seq<int>,
    flags: Seq<bool>,
    n: int,
) -> Set<Seq<char>> {
    Set::new(
        |name: Seq<char>|
            exists|m: int, t: int|
                0 <= m < n && flags[m] && 0 <= t < profiles[order[m]].triggers.len() && #[trigger] normalized(
                    profiles[order[m]].triggers[t].process_name,
                ) == name,
    )
}

/// Keeps at most one enabled profile per trigger: the preferred (legacy active) profile first,
/// then the sidebar order. Returns the ids it disabled, in that order.
pub fn resolve_conflicts(profiles: &mut Vec<Profile>, preferred_id: Option<&str>) -> (disabled: Vec<String>)
    ensures
        final(profiles)@.len() == old(profiles)@.len(),
        ({
            let order = settle_order(old(profiles).deep_view(), preferred_id.deep_view());
            let flags = kept_flags(old(profiles).deep_view(), order, order.len() as int);
            &&& forall|m: int|
                0 <= m < order.len() ==> #[trigger] final(profiles).deep_view()[order[m]] == (ProfileView {
                    enabled: flags[m],
                    ..old(profiles).deep_view()[order[m]]
                })
            &&& disabled.deep_view() == switched_off(old(profiles).deep_view(), order, order.len() as int)
        }),
{
    let ghost all = profiles.deep_view();
    let ghost preferred = preferred_id.deep_view();
    let ghost spec_order = settle_order(all, preferred);
    proof {
        lemma_settle_order(all, preferred);
    }
    let order = settle_positions(profiles, preferred_id);
    assert forall|m: int| 0 <= m < order@.len() implies order@[m] as int == #[trigger] spec_order[m] by {
        assert(order@.map_values(|k: usize| k as int)[m] == order@[m] as int);
    }
    let mut watched: Vec<String> = Vec::new();
    let mut disabled: Vec<String> = Vec::new();
    let mut m: usize = 0;
    while m < order.len()
        invariant
            spec_order == settle_order(all, preferred),
            spec_order.len() == all.len(),
            order@.len() == spec_order.len(),
            forall|k: int| 0 <= k < order@.len() ==> order@[k] as int == #[trigger] spec_order[k],
            forall|k: int| 0 <= k < all.len() ==> 0 <= #[trigger] spec_order[k] < all.len(),
            forall|a: int, b: int|
                0 <= a < b < all.len() ==> #[trigger] spec_order[a] != #[trigger] spec_order[b],
            m <= order@.len(),
            profiles.deep_view().len() == all.len(),
            forall|k: int|
                0 <= k < m ==> #[trigger] profiles.deep_view()[spec_order[k]] == (ProfileView {
                    enabled: kept_flags(all, spec_order, m as int)[k],
                    ..all[spec_order[k]]
                }),
            forall|k: int| m <= k < all.len() ==> #[trigger] profiles.deep_view()[spec_order[k]] == all[spec_order[k]],
            forall|name: Seq<char>|
                watched.deep_view().contains(name) <==> #[trigger] watched_names(
                    all,
                    spec_order,
                    kept_flags(all, spec_order, m as int),
                    m as int,
                ).contains(name),
            disabled.deep_view() == switched_off(all, spec_order, m as int),
        decreases order@.len() - m,
    {
        let index = order[m];
        let ghost flags = kept_flags(all, spec_order, m as int);
        proof {
            lemma_kept_flags_len(all, spec_order, m as int);
            lemma_kept_flags_len(all, spec_order, m + 1);
        }
        let ghost p = all[index as int];
        assert(profiles.deep_view()[index as int] == p);
        assert(profiles.deep_view()[index as int] == profiles@[index as int]@);
        let ghost next_flags = kept_flags(all, spec_order, m + 1);
        assert(next_flags == flags.push(
            p.enabled && forall|k: int| 0 <= k < m && #[trigger] flags[k] ==> !shares(all[spec_order[k]], p),
        ));
        if profiles[index].enabled {
            let names = trigger_names(&profiles[index]);
            assert(names.deep_view() == names_of(p));
            assert(names@.len() == names.deep_view().len());
            assert(watched@.len() == watched.deep_view().len());
            let names_slice = names.as_slice();
            let watched_slice = watched.as_slice();
            assert(names_slice.deep_view() =~= names.deep_view());
            assert(watched_slice.deep_view() =~= watched.deep_view());
            let clash = overlaps(names_slice, watched_slice);
            assert(clash == exists|k: int| 0 <= k < m && #[trigger] flags[k] && shares(all[spec_order[k]], p)) by {
                if clash {
                    let (a, b) = choose|a: int, b: int|
                        0 <= a < names@.len() && 0 <= b < watched@.len() && #[trigger] names.deep_view()[a]
                            == #[trigger] watched.deep_view()[b];
                    let name = watched.deep_view()[b];
                    assert(watched.deep_view().contains(name));
                    assert(watched_names(all, spec_order, flags, m as int).contains(name));
                    let (k, t) = choose|k: int, t: int|
                        0 <= k < m && flags[k] && 0 <= t < all[spec_order[k]].triggers.len() && #[trigger] normalized(
                            all[spec_order[k]].triggers[t].process_name,
                        ) == name;
                    assert(names.deep_view().len() == p.triggers.len());
                    assert(names.deep_view()[a] == names_of(p)[a]);
                    assert(names.deep_view()[a] == normalized(p.triggers[a].process_name));
                    let q = all[spec_order[k]];
                    assert(normalized(q.triggers[t].process_name) == normalized(p.triggers[a].process_name));
                    assert(shares(q, p));
                } else {
                    assert forall|k: int| 0 <= k < m && #[trigger] flags[k] implies !shares(all[spec_order[k]], p) by {
                        if shares(all[spec_order[k]], p) {
                            let (t, a) = choose|t: int, a: int|
                                0 <= t < all[spec_order[k]].triggers.len() && 0 <= a < p.triggers.len() && normalized(
                                    #[trigger] all[spec_order[k]].triggers[t].process_name,
                                ) == normalized(#[trigger] p.triggers[a].process_name);
                            let name = normalized(p.triggers[a].process_name);
                            assert(normalized(all[spec_order[k]].triggers[t].process_name) == name);
                            assert(watched_names(all, spec_order, flags, m as int).contains(name));
                            assert(watched.deep_view().contains(name));
                            let b = choose|b: int| 0 <= b < watched.deep_view().len() && watched.deep_view()[b] == name;
                            assert(0 <= a < names@.len());
                            assert(0 <= b < watched@.len());
                            assert(names.deep_view()[a] == names_of(p)[a]);
                            assert(names.deep_view()[a] == name);
                            assert(names.deep_view()[a] == watched.deep_view()[b]);
                        }
                    }
                }
            }
            if !clash {
                let ghost before_watched = watched.deep_view();
                assert forall|name: Seq<char>| before_watched.contains(name) <==> #[trigger] watched_names(
                    all,
                    spec_order,
                    flags,
                    m as int,
                ).contains(name) by {}
                assert(next_flags[m as int]);
                let mut k: usize = 0;
                while k < names.len()
                    invariant
                        k <= names@.len(),
                        names.deep_view() == names_of(p),
                        watched.deep_view() == before_watched + names_of(p).take(k as int),
                    decreases names@.len() - k,
                {
                    let ghost w = watched.deep_view();
                    watched.push(names[k].clone());
                    assert(watched.deep_view() =~= w.push(names_of(p)[k as int]));
                    assert(before_watched + names_of(p).take(k + 1) =~= (before_watched + names_of(p).take(
                        k as int,
                    )).push(names_of(p)[k as int]));
                    k = k + 1;
                }
                assert(names_of(p).take(k as int) =~= names_of(p));
                proof {
                    assert forall|name: Seq<char>|
                        watched.deep_view().contains(name) <==> #[trigger] watched_names(
                            all,
                            spec_order,
                            next_flags,
                            m + 1,
                        ).contains(name) by {
                        lemma_watched_grows(all, spec_order, flags, next_flags, m as int, name);
                        if before_watched.contains(name) {
                            let i = choose|i: int| 0 <= i < before_watched.len() && before_watched[i] == name;
                            assert(watched.deep_view()[i] == name);
                        }
                        if names_of(p).contains(name) {
                            let a = choose|a: int| 0 <= a < names_of(p).len() && names_of(p)[a] == name;
                            assert((before_watched + names_of(p))[before_watched.len() + a] == name);
                        }
                        if watched.deep_view().contains(name) && !before_watched.contains(name) {
                            let i = choose|i: int| 0 <= i < watched.deep_view().len() && watched.deep_view()[i] == name;
                            if i < before_watched.len() {
                                assert(watched.deep_view()[i] == before_watched[i]);
                            } else {
                                assert(names_of(p)[i - before_watched.len()] == name);
                            }
                        }
                    }
                }
            } else {
                let mut copy = profiles[index].clone();
                copy.enabled = false;
                let ghost before_profiles = profiles.deep_view();
                profiles.set(index, copy);
                assert(profiles.deep_view() =~= before_profiles.update(
                    index as int,
                    ProfileView { enabled: false, ..p },
                ));
                let ghost before_disabled = disabled.deep_view();
                disabled.push(profiles[index].id.clone());
                assert(disabled.deep_view() =~= before_disabled.push(p.id));
                proof {
                    assert forall|name: Seq<char>|
                        watched.deep_view().contains(name) <==> #[trigger] watched_names(
                            all,
                            spec_order,
                            next_flags,
                            m + 1,
                        ).contains(name) by {
                        lemma_watched_grows(all, spec_order, flags, next_flags, m as int, name);
                    }
                }
            }
        } else {
            proof {
                assert forall|name: Seq<char>|
                    watched.deep_view().contains(name) <==> #[trigger] watched_names(
                        all,
                        spec_order,
                        next_flags,
                        m + 1,
                    ).contains(name) by {
                    lemma_watched_grows(all, spec_order, flags, next_flags, m as int, name);
                }
            }
        }
        proof {
            assert forall|k: int|
                0 <= k < m + 1 implies #[trigger] profiles.deep_view()[spec_order[k]] == (ProfileView {
                    enabled: next_flags[k],
                    ..all[spec_order[k]]
                }) by {
                if k < m {
                    assert(next_flags[k] == flags[k]);
                    assert(spec_order[k] != spec_order[m as int]);
                }
            }
            assert forall|k: int| m + 1 <= k < all.len() implies #[trigger] profiles.deep_view()[spec_order[k]]
                == all[spec_order[k]] by {
                assert(spec_order[k] != spec_order[m as int]);
            }
        }
        m = m + 1;
    }
    disabled
}

/// The names watched after one more settled profile: the earlier ones, plus its own when it
/// is kept.
proof fn lemma_watched_grows(
    all: Seq<ProfileView>,
    order: Seq<int>,
    flags: Seq<bool>,
    next_flags: Seq<bool>,
    m: int,
    name: Seq<char>,
)
    requires
        0 <= m,
        flags.len() == m,
        next_flags.len() == m + 1,
        forall|k: int| 0 <= k < m ==> next_flags[k] == flags[k],
    ensures
        watched_names(all, order, next_flags, m + 1).contains(name) <==> (watched_names(
            all,
            order,
            flags,
            m,
        ).contains(name) || (next_flags[m] && names_of(all[order[m]]).contains(name))),
{
    let p = all[order[m]];
    if watched_names(all, order, next_flags, m + 1).contains(name) {
        let (k, t) = choose|k: int, t: int|
            0 <= k < m + 1 && next_flags[k] && 0 <= t < all[order[k]].triggers.len() && #[trigger] normalized(
                all[order[k]].triggers[t].process_name,
            ) == name;
        if k == m {
            assert(names_of(p)[t] == name);
        }
    }
    if next_flags[m] && names_of(p).contains(name) {
        let t = choose|t: int| 0 <= t < names_of(p).len() && names_of(p)[t] == name;
        assert(normalized(all[order[m]].triggers[t].process_name) == name);
    }
}

/// After settling, no two enabled profiles watch a common simulator.
pub proof fn lemma_resolved_profiles_never_conflict(
    before: Seq<ProfileView>,
    after: Seq<ProfileView>,
    preferred: Option<Seq<char>>,
    a: int,
    b: int,
)
    requires
        after.len() == before.len(),
        ({
            let order = settle_order(before, preferred);
            let flags = kept_flags(before, order, order.len() as int);
            forall|m: int|
                0 <= m < order.len() ==> #[trigger] after[order[m]] == (ProfileView {
                    enabled: flags[m],
                    ..before[order[m]]
                })
        }),
        0 <= a < after.len(),
        0 <= b < after.len(),
        a != b,
        after[a].enabled,
        after[b].enabled,
    ensures
        !shares(after[a], after[b]),
{
    let order = settle_order(before, preferred);
    let n = order.len() as int;
    lemma_settle_order(before, preferred);
    lemma_kept_flags_len(before, order, n);
    let flags = kept_flags(before, order, n);
    assert(order.contains(a));
    assert(order.contains(b));
    let ma = choose|m: int| 0 <= m < n && order[m] == a;
    let mb = choose|m: int| 0 <= m < n && order[m] == b;
    assert(after[order[ma]].enabled == flags[ma]);
    assert(after[order[mb]].enabled == flags[mb]);
    let (first, second) = if ma < mb { (ma, mb) } else { (mb, ma) };
    assert(first != second);
    lemma_kept_flags_prefix(before, order, second, n);
    lemma_kept_flags_prefix(before, order, first, n);
    lemma_kept_flags_prefix(before, order, first, second);
    lemma_kept_flags_len(before, order, second);
    let earlier = kept_flags(before, order, second);
    assert(kept_flags(before, order, second + 1) == earlier.push(
        before[order[second]].enabled && forall|k: int|
            0 <= k < second && #[trigger] earlier[k] ==> !shares(before[order[k]], before[order[second]]),
    ));
    assert(earlier[first] == flags[first]);
    assert(!shares(before[order[first]], before[order[second]]));
    lemma_shares_symmetric(before[order[first]], before[order[second]]);
}

/// Settling switches no profile on, and switches one off only when it shares a trigger with a
/// profile settled before it that stays enabled.
pub proof fn lemma_resolution_disables_only_for_a_kept_conflict(
    before: Seq<ProfileView>,
    after: Seq<ProfileView>,
    preferred: Option<Seq<char>>,
    a: int,
)
    requires
        after.len() == before.len(),
        ({
            let order = settle_order(before, preferred);
            let flags = kept_flags(before, order, order.len() as int);
            forall|m: int|
                0 <= m < order.len() ==> #[trigger] after[order[m]] == (ProfileView {
                    enabled: flags[m],
                    ..before[order[m]]
                })
        }),
        0 <= a < after.len(),
    ensures
        after[a].enabled ==> before[a].enabled,
        before[a].enabled && !after[a].enabled ==> exists|kb: int, ka: int|
            0 <= kb < ka < before.len() && #[trigger] settle_order(before, preferred)[ka] == a && #[trigger] after[settle_order(
                before,
                preferred,
            )[kb]].enabled && shares(before[settle_order(before, preferred)[kb]], before[a]),
{
    let order = settle_order(before, preferred);
    let n = order.len() as int;
    lemma_settle_order(before, preferred);
    lemma_kept_flags_len(before, order, n);
    let flags = kept_flags(before, order, n);
    assert(order.contains(a));
    let ka = choose|m: int| 0 <= m < n && order[m] == a;
    assert(after[order[ka]].enabled == flags[ka]);
    lemma_kept_flags_prefix(before, order, ka, n);
    lemma_kept_flags_len(before, order, ka);
    let earlier = kept_flags(before, order, ka);
    assert(kept_flags(before, order, ka + 1) == earlier.push(
        before[order[ka]].enabled && forall|k: int|
            0 <= k < ka && #[trigger] earlier[k] ==> !shares(before[order[k]], before[order[ka]]),
    ));
    if before[a].enabled && !after[a].enabled {
        let kb = choose|k: int| 0 <= k < ka && #[trigger] earlier[k] && shares(before[order[k]], before[order[ka]]);
        lemma_kept_flags_prefix(before, order, kb, n);
        lemma_kept_flags_prefix(before, order, kb, ka);
        assert(after[order[kb]].enabled == flags[kb]);
        assert(after[order[kb]].enabled);
    }
}

/// The preferred profile (the first one with the preferred id), when enabled, stays enabled.
pub proof fn lemma_preferred_profile_stays_enabled(
    before: Seq<ProfileView>,
    after: Seq<ProfileView>,
    preferred: Option<Seq<char>>,
    p: int,
)
    requires
        after.len() == before.len(),
        ({
            let order = settle_order(before, preferred);
            let flags = kept_flags(before, order, order.len() as int);
            forall|m: int|
                0 <= m < order.len() ==> #[trigger] after[order[m]] == (ProfileView {
                    enabled: flags[m],
                    ..before[order[m]]
                })
        }),
        0 <= p < before.len(),
        Some(before[p].id) == preferred,
        forall|q: int| 0 <= q < p ==> Some(#[trigger] before[q].id) != preferred,
        before[p].enabled,
    ensures
        after[p].enabled,
{
    let n = before.len() as int;
    let order = settle_order(before, preferred);
    lemma_settle_order(before, preferred);
    lemma_preferred_positions(before, preferred, true, n);
    let first = preferred_positions(before, preferred, true, n);
    assert(first.contains(p));
    let k = choose|k: int| 0 <= k < first.len() && first[k] == p;
    let q = first[0];
    assert(0 <= q < n && Some(before[q].id) == preferred);
    if k > 0 {
        assert(first[0] < first[k]);
    }
    assert(q == p);
    assert(order[0] == first[0]);
    lemma_kept_flags_len(before, order, n);
    lemma_kept_flags_prefix(before, order, 0, n);
    lemma_kept_flags_len(before, order, 0);
    assert(kept_flags(before, order, 1)[0]);
    assert(after[order[0]].enabled == kept_flags(before, order, n)[0]);
}

/// Sharing a trigger is symmetric.
pub proof fn lemma_shares_symmetric(first: ProfileView, second: ProfileView)
    ensures
        shares(first, second) == shares(second, first),
{
    if shares(first, second) {
        let (i, j) = choose|i: int, j: int|
            0 <= i < first.triggers.len() && 0 <= j < second.triggers.len() && normalized(
                #[trigger] first.triggers[i].process_name,
            ) == normalized(#[trigger] second.triggers[j].process_name);
        assert(normalized(second.triggers[j].process_name) == normalized(first.triggers[i].process_name));
    }
    if shares(second, first) {
        let (i, j) = choose|i: int, j: int|
            0 <= i < second.triggers.len() && 0 <= j < first.triggers.len() && normalized(
                #[trigger] second.triggers[i].process_name,
            ) == normalized(#[trigger] first.triggers[j].process_name);
        assert(normalized(first.triggers[j].process_name) == normalized(second.triggers[i].process_name));
    }
}

} // verus!
