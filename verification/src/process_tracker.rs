//! Which process is the real app behind a launch: launchers often start the app and exit.
use std::collections::HashSet;

use vstd::prelude::*;
use vstd::std_specs::hash::*;

use crate::text::{lowercase, to_lowercase};

verus! {

broadcast use vstd::std_specs::hash::group_hash_axioms;

/// One process as the operating system listed it.
#[derive(Debug, PartialEq, Eq)]
pub struct ProcessSample {
    pub pid: u32,
    pub parent_pid: Option<u32>,
    pub name: String,
    pub exe_path: Option<String>,
    pub start_time: u64,
}

impl Clone for ProcessSample {
    fn clone(&self) -> (copy: Self)
        ensures
            copy.pid == self.pid,
            copy.parent_pid == self.parent_pid,
            copy.name@ == self.name@,
            copy.exe_path.deep_view() == self.exe_path.deep_view(),
            copy.start_time == self.start_time,
    {
        ProcessSample {
            pid: self.pid,
            parent_pid: self.parent_pid,
            name: self.name.clone(),
            exe_path: crate::models::clone_opt_string(&self.exe_path),
            start_time: self.start_time,
        }
    }
}

/// What the launcher knows about one launch while it decides which process is the real app.
pub struct LaunchTrace<'a> {
    pub root_pid: Option<u32>,
    pub followed: &'a HashSet<u32>,
    pub baseline: &'a HashSet<u32>,
    pub install_dir: &'a str,
}

/// A set that holds the pid of every listed child of a process it holds.
pub open spec fn closed_under_children(set: Set<u32>, samples: Seq<ProcessSample>) -> bool {
    forall|i: int|
        0 <= i < samples.len() && (#[trigger] samples[i]).parent_pid is Some && set.contains(
            samples[i].parent_pid->0,
        ) ==> set.contains(samples[i].pid)
}

pub open spec fn sample_pids(samples: Seq<ProcessSample>) -> Set<u32> {
    samples.map_values(|sample: ProcessSample| sample.pid).to_set()
}

/// Calls `HashSet::clone` on a set of pids: the copy holds the same pids.
#[verifier::external_body]
fn copy_pids(pids: &HashSet<u32>) -> (copy: HashSet<u32>)
    ensures
        copy@ == pids@,
{
    pids.clone()
}

proof fn lemma_pid_in_samples(samples: Seq<ProcessSample>, i: int)
    requires
        0 <= i < samples.len(),
    ensures
        sample_pids(samples).contains(samples[i].pid),
{
    let mapped = samples.map_values(|sample: ProcessSample| sample.pid);
    assert(mapped[i] == samples[i].pid);
    assert(mapped.contains(samples[i].pid));
}

/// `grown` is the smallest set that holds `followed` and is closed under children.
pub open spec fn least_closed_superset(followed: Set<u32>, samples: Seq<ProcessSample>, grown: Set<u32>) -> bool {
    &&& followed.subset_of(grown)
    &&& closed_under_children(grown, samples)
    &&& forall|set: Set<u32>|
        #![trigger closed_under_children(set, samples)]
        followed.subset_of(set) && closed_under_children(set, samples) ==> grown.subset_of(set)
}

/// Growing a grown set again over the same samples gives it back unchanged.
pub proof fn lemma_growing_twice_changes_nothing(
    followed: Set<u32>,
    samples: Seq<ProcessSample>,
    grown: Set<u32>,
    again: Set<u32>,
)
    requires
        least_closed_superset(followed, samples, grown),
        least_closed_superset(grown, samples, again),
    ensures
        again == grown,
{
    assert(closed_under_children(grown, samples));
    assert(grown.subset_of(grown));
    assert(again.subset_of(grown));
    assert(again =~= grown);
}

/// The followed pids together with every listed descendant of them: the smallest set that
/// holds `followed` and is closed under children. The set only grows, so grandchildren stay
/// followed after an intermediate launcher exits.
pub fn expand_tracked(followed: &HashSet<u32>, samples: &[ProcessSample]) -> (expanded: HashSet<u32>)
    ensures
        least_closed_superset(followed@, samples@, expanded@),
{
    let ghost bound = sample_pids(samples@);
    proof {
        vstd::seq_lib::seq_to_set_is_finite(samples@.map_values(|sample: ProcessSample| sample.pid));
    }
    let mut expanded = copy_pids(followed);
    loop
        invariant
            bound == sample_pids(samples@),
            bound.finite(),
            followed@.subset_of(expanded@),
            expanded@.difference(followed@).subset_of(bound),
            forall|set: Set<u32>|
                #![trigger closed_under_children(set, samples@)]
                followed@.subset_of(set) && closed_under_children(set, samples@)
                    ==> expanded@.subset_of(set),
        decreases bound.len() - expanded@.difference(followed@).len(),
    {
        let ghost start = expanded@;
        let mut grew = false;
        let mut i: usize = 0;
        while i < samples.len()
            invariant
                bound == sample_pids(samples@),
                bound.finite(),
                i <= samples@.len(),
                followed@.subset_of(expanded@),
                start.subset_of(expanded@),
                expanded@.difference(followed@).subset_of(bound),
                !grew ==> expanded@ == start,
                grew ==> exists|p: u32| expanded@.contains(p) && !start.contains(p),
                forall|j: int|
                    0 <= j < i && (#[trigger] samples@[j]).parent_pid is Some && start.contains(
                        samples@[j].parent_pid->0,
                    ) ==> expanded@.contains(samples@[j].pid),
                forall|set: Set<u32>|
                    #![trigger closed_under_children(set, samples@)]
                    followed@.subset_of(set) && closed_under_children(set, samples@)
                        ==> expanded@.subset_of(set),
            decreases samples@.len() - i,
        {
            if let Some(parent) = samples[i].parent_pid {
                if expanded.contains(&parent) {
                    proof {
                        lemma_pid_in_samples(samples@, i as int);
                    }
                    let added = expanded.insert(samples[i].pid);
                    if added {
                        assert(expanded@.contains(samples@[i as int].pid) && !start.contains(
                            samples@[i as int].pid,
                        ));
                        grew = true;
                    }
                    assert forall|set: Set<u32>|
                        #![trigger closed_under_children(set, samples@)]
                        followed@.subset_of(set) && closed_under_children(set, samples@)
                            implies expanded@.subset_of(set) by {
                        assert(samples@[i as int].parent_pid is Some);
                    }
                }
            }
            i = i + 1;
        }
        if !grew {
            return expanded;
        }
        proof {
            let before = start.difference(followed@);
            let after = expanded@.difference(followed@);
            vstd::set_lib::lemma_len_subset(after, bound);
            let extra = choose|p: u32| expanded@.contains(p) && !start.contains(p);
            assert(after.contains(extra));
            assert(before.subset_of(after.remove(extra)));
            vstd::set_lib::lemma_len_subset(before, after.remove(extra));
        }
    }
}

/// Whether one of the followed processes is still listed.
pub fn any_tracked_alive(followed: &HashSet<u32>, samples: &[ProcessSample]) -> (alive: bool)
    ensures
        alive == exists|i: int| 0 <= i < samples@.len() && followed@.contains(#[trigger] samples@[i].pid),
{
    let mut i: usize = 0;
    while i < samples.len()
        invariant
            i <= samples@.len(),
            forall|j: int| 0 <= j < i ==> !followed@.contains(#[trigger] samples@[j].pid),
        decreases samples@.len() - i,
    {
        if followed.contains(&samples[i].pid) {
            return true;
        }
        i = i + 1;
    }
    false
}

/// Strict lexicographic order of texts, character by character (as `String` orders them).
pub open spec fn text_less(a: Seq<char>, b: Seq<char>) -> bool
    decreases a.len(),
{
    if a.len() == 0 {
        b.len() > 0
    } else if b.len() == 0 {
        false
    } else if (a[0] as int) < (b[0] as int) {
        true
    } else if (a[0] as int) > (b[0] as int) {
        false
    } else {
        text_less(a.drop_first(), b.drop_first())
    }
}

/// No text comes before itself.
pub proof fn lemma_text_less_irreflexive(a: Seq<char>)
    ensures
        !text_less(a, a),
    decreases a.len(),
{
    if a.len() > 0 {
        lemma_text_less_irreflexive(a.drop_first());
    }
}

/// Of two texts, at most one comes before the other.
pub proof fn lemma_text_less_asymmetric(a: Seq<char>, b: Seq<char>)
    ensures
        text_less(a, b) ==> !text_less(b, a),
    decreases a.len(),
{
    if a.len() > 0 && b.len() > 0 && a[0] == b[0] {
        lemma_text_less_asymmetric(a.drop_first(), b.drop_first());
    }
}

/// Of two different texts, one comes before the other.
pub proof fn lemma_text_less_total(a: Seq<char>, b: Seq<char>)
    ensures
        a != b ==> text_less(a, b) || text_less(b, a),
    decreases a.len(),
{
    if a.len() > 0 && b.len() > 0 && a[0] == b[0] {
        lemma_text_less_total(a.drop_first(), b.drop_first());
        if a.drop_first() == b.drop_first() {
            assert(a =~= seq![a[0]] + a.drop_first());
            assert(b =~= seq![b[0]] + b.drop_first());
        }
    } else if a.len() == 0 && b.len() == 0 {
        assert(a =~= b);
    }
}

/// Coming before is transitive.
pub proof fn lemma_text_less_transitive(a: Seq<char>, b: Seq<char>, c: Seq<char>)
    requires
        text_less(a, b),
        text_less(b, c),
    ensures
        text_less(a, c),
    decreases a.len(),
{
    if a.len() > 0 && b.len() > 0 && c.len() > 0 && a[0] == b[0] && b[0] == c[0] {
        lemma_text_less_transitive(a.drop_first(), b.drop_first(), c.drop_first());
    }
}

/// Coming no later is transitive.
pub proof fn lemma_text_not_after_transitive(a: Seq<char>, b: Seq<char>, c: Seq<char>)
    requires
        !text_less(b, a),
        !text_less(c, b),
    ensures
        !text_less(c, a),
{
    lemma_text_less_total(a, b);
    lemma_text_less_total(b, c);
    lemma_text_less_asymmetric(a, b);
    lemma_text_less_asymmetric(b, c);
    lemma_text_less_asymmetric(a, c);
    if a != b && b != c {
        lemma_text_less_transitive(a, b, c);
    }
}

pub fn is_text_less(a: &[char], b: &[char]) -> (less: bool)
    ensures
        less == text_less(a@, b@),
{
    let mut i: usize = 0;
    assert(a@.skip(0) =~= a@);
    assert(b@.skip(0) =~= b@);
    while i < a.len() && i < b.len()
        invariant
            i <= a@.len(),
            i <= b@.len(),
            forall|j: int| 0 <= j < i ==> a@[j] == b@[j],
            text_less(a@, b@) == text_less(a@.skip(i as int), b@.skip(i as int)),
        decreases a@.len() - i,
    {
        assert(a@.skip(i as int)[0] == a@[i as int]);
        assert(b@.skip(i as int)[0] == b@[i as int]);
        if a[i] != b[i] {
            return a[i] < b[i];
        }
        assert(a@.skip(i as int).drop_first() =~= a@.skip(i + 1));
        assert(b@.skip(i as int).drop_first() =~= b@.skip(i + 1));
        i = i + 1;
    }
    b.len() > i
}

/// Started strictly before, or at the same time with a smaller name.
pub open spec fn started_before(a: ProcessSample, b: ProcessSample) -> bool {
    a.start_time < b.start_time || (a.start_time == b.start_time && text_less(a.name@, b.name@))
}

/// The oldest sample that `wanted` accepts, the first one listed among equally old ones.
pub open spec fn oldest_where(
    samples: Seq<ProcessSample>,
    wanted: spec_fn(ProcessSample) -> bool,
) -> Option<ProcessSample>
    decreases samples.len(),
{
    if samples.len() == 0 {
        None
    } else {
        let best = oldest_where(samples.drop_last(), wanted);
        let last = samples.last();
        if !wanted(last) {
            best
        } else {
            match best {
                None => Some(last),
                Some(current) => if started_before(last, current) {
                    Some(last)
                } else {
                    Some(current)
                },
            }
        }
    }
}

/// What `Path::starts_with` returns for two paths: whether the second is a prefix of the
/// first, component by component, by the path rules of the platform the program is built for.
pub uninterp spec fn path_starts_with(path: Seq<char>, base: Seq<char>) -> bool;

/// Calls `Path::starts_with`; the result is named `path_starts_with` of the two texts.
#[verifier::external_body]
fn path_has_prefix(path: &str, base: &str) -> (inside: bool)
    ensures
        inside == path_starts_with(path@, base@),
{
    std::path::Path::new(path).starts_with(std::path::Path::new(base))
}

/// Windows paths ignore case, and the executable path reported by the OS may differ in case.
pub open spec fn inside_dir(path: Seq<char>, dir: Seq<char>) -> bool {
    path_starts_with(lowercase(path), lowercase(dir))
}

fn is_inside(path: &str, dir: &str) -> (inside: bool)
    ensures
        inside == inside_dir(path@, dir@),
{
    let path = to_lowercase(path);
    let dir = to_lowercase(dir);
    path_has_prefix(path.as_str(), dir.as_str())
}

pub open spec fn followed_sample(followed: Set<u32>) -> spec_fn(ProcessSample) -> bool {
    |sample: ProcessSample| followed.contains(sample.pid)
}

pub open spec fn new_in_install_dir(baseline: Set<u32>, install_dir: Seq<char>) -> spec_fn(
    ProcessSample,
) -> bool {
    |sample: ProcessSample|
        !baseline.contains(sample.pid) && sample.exe_path is Some && inside_dir(
            sample.exe_path->0@,
            install_dir,
        )
}

pub open spec fn first_with_pid(samples: Seq<ProcessSample>, pid: u32) -> Option<ProcessSample>
    decreases samples.len(),
{
    if samples.len() == 0 {
        None
    } else if samples[0].pid == pid {
        Some(samples[0])
    } else {
        first_with_pid(samples.drop_first(), pid)
    }
}

/// The name learned for a launch: the root process while it runs, else the oldest followed
/// descendant, else the oldest process that appeared in the install folder.
pub open spec fn chosen_process_name(
    root_pid: Option<u32>,
    followed: Set<u32>,
    baseline: Set<u32>,
    install_dir: Seq<char>,
    samples: Seq<ProcessSample>,
) -> Option<Seq<char>> {
    let root = match root_pid {
        Some(pid) => first_with_pid(samples, pid),
        None => None,
    };
    match root {
        Some(sample) => Some(sample.name@),
        None => match oldest_where(samples, followed_sample(followed)) {
            Some(sample) => Some(sample.name@),
            None => match oldest_where(samples, new_in_install_dir(baseline, install_dir)) {
                Some(sample) => Some(sample.name@),
                None => None,
            },
        },
    }
}

fn find_pid(samples: &[ProcessSample], pid: u32) -> (found: Option<usize>)
    ensures
        match found {
            Some(i) => i < samples@.len() && first_with_pid(samples@, pid) == Some(samples@[i as int]),
            None => first_with_pid(samples@, pid) is None,
        },
{
    let mut i: usize = 0;
    assert(samples@.skip(0) =~= samples@);
    while i < samples.len()
        invariant
            i <= samples@.len(),
            first_with_pid(samples@, pid) == first_with_pid(samples@.skip(i as int), pid),
        decreases samples@.len() - i,
    {
        assert(samples@.skip(i as int)[0] == samples@[i as int]);
        if samples[i].pid == pid {
            return Some(i);
        }
        assert(samples@.skip(i as int).drop_first() =~= samples@.skip(i + 1));
        i = i + 1;
    }
    assert(samples@.skip(i as int).len() == 0);
    None
}

fn is_started_before(a: &ProcessSample, b: &ProcessSample) -> (before: bool)
    ensures
        before == started_before(*a, *b),
{
    if a.start_time < b.start_time {
        return true;
    }
    if a.start_time > b.start_time {
        return false;
    }
    let x = crate::text::chars_of(a.name.as_str());
    let y = crate::text::chars_of(b.name.as_str());
    is_text_less(x.as_slice(), y.as_slice())
}

/// The index of the oldest followed sample.
fn oldest_followed(followed: &HashSet<u32>, samples: &[ProcessSample]) -> (found: Option<usize>)
    ensures
        match found {
            Some(i) => i < samples@.len() && oldest_where(samples@, followed_sample(followed@)) == Some(
                samples@[i as int],
            ),
            None => oldest_where(samples@, followed_sample(followed@)) is None,
        },
{
    let ghost wanted = followed_sample(followed@);
    let mut best: Option<usize> = None;
    let mut i: usize = 0;
    while i < samples.len()
        invariant
            i <= samples@.len(),
            wanted == followed_sample(followed@),
            match best {
                Some(b) => b < i && oldest_where(samples@.take(i as int), wanted) == Some(
                    samples@[b as int],
                ),
                None => oldest_where(samples@.take(i as int), wanted) is None,
            },
        decreases samples@.len() - i,
    {
        assert(samples@.take(i + 1).drop_last() =~= samples@.take(i as int));
        if followed.contains(&samples[i].pid) {
            best = match best {
                None => Some(i),
                Some(b) => if is_started_before(&samples[i], &samples[b]) {
                    Some(i)
                } else {
                    Some(b)
                },
            };
        }
        i = i + 1;
    }
    assert(samples@.take(i as int) =~= samples@);
    best
}

/// The index of the oldest sample that appeared in the install folder after the launch.
fn oldest_new_in_dir(baseline: &HashSet<u32>, install_dir: &str, samples: &[ProcessSample]) -> (found:
    Option<usize>)
    ensures
        match found {
            Some(i) => i < samples@.len() && oldest_where(
                samples@,
                new_in_install_dir(baseline@, install_dir@),
            ) == Some(samples@[i as int]),
            None => oldest_where(samples@, new_in_install_dir(baseline@, install_dir@)) is None,
        },
{
    let ghost wanted = new_in_install_dir(baseline@, install_dir@);
    let mut best: Option<usize> = None;
    let mut i: usize = 0;
    while i < samples.len()
        invariant
            i <= samples@.len(),
            wanted == new_in_install_dir(baseline@, install_dir@),
            match best {
                Some(b) => b < i && oldest_where(samples@.take(i as int), wanted) == Some(
                    samples@[b as int],
                ),
                None => oldest_where(samples@.take(i as int), wanted) is None,
            },
        decreases samples@.len() - i,
    {
        assert(samples@.take(i + 1).drop_last() =~= samples@.take(i as int));
        let accepted = !baseline.contains(&samples[i].pid) && match &samples[i].exe_path {
            Some(exe) => is_inside(exe.as_str(), install_dir),
            None => false,
        };
        if accepted {
            best = match best {
                None => Some(i),
                Some(b) => if is_started_before(&samples[i], &samples[b]) {
                    Some(i)
                } else {
                    Some(b)
                },
            };
        }
        i = i + 1;
    }
    assert(samples@.take(i as int) =~= samples@);
    best
}

/// The process that represents a launched app: the root process while it runs, else the
/// oldest followed descendant, else the oldest new process in the install folder; ties go to
/// the smaller name.
pub fn choose_process_name(trace: &LaunchTrace, samples: &[ProcessSample]) -> (name: Option<String>)
    ensures
        name.deep_view() == chosen_process_name(
            trace.root_pid,
            trace.followed@,
            trace.baseline@,
            trace.install_dir@,
            samples@,
        ),
{
    if let Some(pid) = trace.root_pid {
        if let Some(i) = find_pid(samples, pid) {
            return Some(samples[i].name.clone());
        }
    }
    if let Some(i) = oldest_followed(trace.followed, samples) {
        return Some(samples[i].name.clone());
    }
    match oldest_new_in_dir(trace.baseline, trace.install_dir, samples) {
        Some(i) => Some(samples[i].name.clone()),
        None => None,
    }
}

} // verus!
