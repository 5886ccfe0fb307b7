//! Process names as the monitor compares them.
use vstd::prelude::*;

use crate::models::{ProcessInfo, ProcessInfoView};
use crate::process_tracker::{
    is_text_less, lemma_text_less_irreflexive, lemma_text_less_total,
    lemma_text_less_transitive, text_less, ProcessSample,
};
use crate::text::{chars_of, lowercase, same_text, seq_ends_with, string_of, to_lowercase, trim, trimmed};

verus! {

pub open spec fn exe_suffix() -> Seq<char> {
    seq!['.', 'e', 'x', 'e']
}

/// Case-insensitive and extension-agnostic: trimmed, lowercased, and without a final `.exe`.
pub open spec fn normalized(name: Seq<char>) -> Seq<char> {
    let lower = lowercase(trimmed(name));
    if crate::text::has_suffix(lower, exe_suffix()) {
        lower.take(lower.len() - 4)
    } else {
        lower
    }
}

/// Case-insensitive and extension-agnostic, so `FlightSimulator2024.exe` matches
/// `flightsimulator2024.exe` on Windows and `TextEdit.exe` matches `TextEdit` on macOS dev hosts.
pub fn normalize_process_name(name: &str) -> (normal: String)
    ensures
        normal@ == normalized(name@),
{
    let lower = to_lowercase(trim(name).as_str());
    let mut chars = chars_of(lower.as_str());
    let suffix = ['.', 'e', 'x', 'e'];
    assert(suffix@ == exe_suffix());
    if seq_ends_with(chars.as_slice(), suffix.as_slice()) {
        let keep = chars.len() - 4;
        chars.truncate(keep);
    }
    string_of(chars.as_slice())
}

/// Two process names denote the same program.
pub fn same_process_name(a: &str, b: &str) -> (same: bool)
    ensures
        same == (normalized(a@) == normalized(b@)),
{
    let x = normalize_process_name(a);
    let y = normalize_process_name(b);
    crate::text::same_text(x.as_str(), y.as_str())
}

/// The pids, in listing order, of the processes whose name normalizes like `process_name`.
pub open spec fn pids_named(samples: Seq<ProcessSample>, process_name: Seq<char>) -> Seq<u32>
    decreases samples.len(),
{
    if samples.len() == 0 {
        Seq::empty()
    } else {
        let rest = pids_named(samples.drop_last(), process_name);
        if normalized(samples.last().name@) == normalized(process_name) {
            rest.push(samples.last().pid)
        } else {
            rest
        }
    }
}

/// The pids of the listed processes that run `process_name`.
pub fn pids_by_name(samples: &[ProcessSample], process_name: &str) -> (pids: Vec<u32>)
    ensures
        pids@ == pids_named(samples@, process_name@),
{
    let mut pids: Vec<u32> = Vec::new();
    let mut i: usize = 0;
    while i < samples.len()
        invariant
            i <= samples@.len(),
            pids@ == pids_named(samples@.take(i as int), process_name@),
        decreases samples@.len() - i,
    {
        assert(samples@.take(i + 1).drop_last() =~= samples@.take(i as int));
        if same_process_name(samples[i].name.as_str(), process_name) {
            pids.push(samples[i].pid);
        }
        i = i + 1;
    }
    assert(samples@.take(i as int) =~= samples@);
    pids
}

/// Whether any listed process runs `process_name`.
pub fn is_running(samples: &[ProcessSample], process_name: &str) -> (running: bool)
    ensures
        running == (pids_named(samples@, process_name@).len() > 0),
{
    pids_by_name(samples, process_name).len() > 0
}

/// The pids of every listed process.
pub fn running_pids(samples: &[ProcessSample]) -> (pids: Vec<u32>)
    ensures
        pids@.len() == samples@.len(),
        forall|i: int| 0 <= i < samples@.len() ==> pids@[i] == samples@[i].pid,
{
    let mut pids: Vec<u32> = Vec::new();
    let mut i: usize = 0;
    while i < samples.len()
        invariant
            i <= samples@.len(),
            pids@.len() == i,
            forall|j: int| 0 <= j < i ==> pids@[j] == samples@[j].pid,
        decreases samples@.len() - i,
    {
        pids.push(samples[i].pid);
        i = i + 1;
    }
    pids
}

/// The key the process list is ordered and merged by: the name in lowercase.
pub open spec fn listing_key(info: ProcessInfoView) -> Seq<char> {
    lowercase(info.name)
}

/// The process at `k` is the first named one with its key.
pub open spec fn first_with_key(processes: Seq<ProcessInfoView>, k: int) -> bool {
    &&& processes[k].name.len() > 0
    &&& forall|m: int|
        0 <= m < k && (#[trigger] processes[m]).name.len() > 0 ==> listing_key(processes[m])
            != listing_key(processes[k])
}

/// The entries are strictly ordered by key.
#[verifier::opaque]
pub open spec fn sorted_by_key(listed: Seq<ProcessInfoView>) -> bool {
    forall|i: int, j: int|
        0 <= i < j < listed.len() ==> text_less(
            listing_key(#[trigger] listed[i]),
            listing_key(#[trigger] listed[j]),
        )
}

/// `info` is, among the first `k` of `all`, the first named process with its key.
pub open spec fn first_of_key_upto(all: Seq<ProcessInfoView>, k: int, info: ProcessInfoView) -> bool {
    exists|m: int| 0 <= m < k && #[trigger] all[m] == info && first_with_key(all, m)
}

/// Each entry is, among the first `k` of `all`, the first named process with its key.
#[verifier::opaque]
pub open spec fn firsts_upto(all: Seq<ProcessInfoView>, k: int, listed: Seq<ProcessInfoView>) -> bool {
    forall|i: int| 0 <= i < listed.len() ==> first_of_key_upto(all, k, #[trigger] listed[i])
}

/// Every named process among the first `k` of `all` has its key listed.
#[verifier::opaque]
pub open spec fn covers_upto(all: Seq<ProcessInfoView>, k: int, listed: Seq<ProcessInfoView>) -> bool {
    forall|m: int|
        0 <= m < k && (#[trigger] all[m]).name.len() > 0 ==> exists|i: int|
            0 <= i < listed.len() && listing_key(#[trigger] listed[i]) == listing_key(all[m])
}

/// `listed` lists the first `k` of `all`: ordered strictly by key, each entry the first named
/// process with its key, and every named process among the first `k` represented by its key.
pub open spec fn listing_upto(all: Seq<ProcessInfoView>, k: int, listed: Seq<ProcessInfoView>) -> bool {
    &&& sorted_by_key(listed)
    &&& firsts_upto(all, k, listed)
    &&& covers_upto(all, k, listed)
}

/// A process that is nameless, or whose key is listed already, leaves the listing as it is.
proof fn lemma_listing_keeps(all: Seq<ProcessInfoView>, k: int, listed: Seq<ProcessInfoView>, p: int)
    requires
        0 <= k < all.len(),
        listing_upto(all, k, listed),
        all[k].name.len() > 0 ==> 0 <= p < listed.len() && listing_key(listed[p]) == listing_key(all[k]),
    ensures
        listing_upto(all, k + 1, listed),
{
    reveal(firsts_upto);
    reveal(covers_upto);
    assert forall|i: int| 0 <= i < listed.len() implies first_of_key_upto(all, k + 1, #[trigger] listed[i]) by {
        assert(first_of_key_upto(all, k, listed[i]));
    }
    assert forall|m: int|
        0 <= m < k + 1 && (#[trigger] all[m]).name.len() > 0 implies exists|i: int|
        0 <= i < listed.len() && listing_key(#[trigger] listed[i]) == listing_key(all[m]) by {
        if m == k {
            assert(listing_key(listed[p]) == listing_key(all[m]));
        }
    }
}

/// In a sorted listing, every key before `p` is below a key that is neither equal to nor
/// below the key at `p - 1`.
proof fn lemma_keys_below(r: Seq<ProcessInfoView>, p: int, kx: Seq<char>)
    requires
        sorted_by_key(r),
        0 <= p <= r.len(),
        p > 0 ==> listing_key(r[p - 1]) != kx && !text_less(kx, listing_key(r[p - 1])),
    ensures
        forall|q: int| 0 <= q < p ==> text_less(listing_key(#[trigger] r[q]), kx),
{
    reveal(sorted_by_key);
    if p > 0 {
        lemma_text_less_total(kx, listing_key(r[p - 1]));
    }
    assert forall|q: int| 0 <= q < p implies text_less(listing_key(#[trigger] r[q]), kx) by {
        if q < p - 1 {
            lemma_text_less_transitive(listing_key(r[q]), listing_key(r[p - 1]), kx);
        }
    }
}

/// An entry whose key is above those before `p` and below those from `p` on keeps the listing
/// sorted when it goes in at `p`.
proof fn lemma_sorted_insert(r: Seq<ProcessInfoView>, p: int, x: ProcessInfoView)
    requires
        sorted_by_key(r),
        0 <= p <= r.len(),
        forall|q: int| 0 <= q < p ==> text_less(listing_key(#[trigger] r[q]), listing_key(x)),
        forall|q: int| p <= q < r.len() ==> text_less(listing_key(x), listing_key(#[trigger] r[q])),
    ensures
        sorted_by_key(r.insert(p, x)),
{
    reveal(sorted_by_key);
    let n = r.insert(p, x);
    let kx = listing_key(x);
    assert forall|i: int, j: int| 0 <= i < j < n.len() implies text_less(
        listing_key(#[trigger] n[i]),
        listing_key(#[trigger] n[j]),
    ) by {
        if j < p {
            assert(n[i] == r[i] && n[j] == r[j]);
        } else if j == p {
            assert(n[i] == r[i]);
        } else if i == p {
            assert(n[j] == r[j - 1]);
        } else if i < p {
            assert(n[i] == r[i] && n[j] == r[j - 1]);
            lemma_text_less_transitive(listing_key(r[i]), kx, listing_key(r[j - 1]));
        } else {
            assert(n[i] == r[i - 1] && n[j] == r[j - 1]);
        }
    }
}

/// A named process whose key is neither listed nor among the first `k` is the first with its
/// key.
proof fn lemma_new_key_first(all: Seq<ProcessInfoView>, k: int, r: Seq<ProcessInfoView>, p: int)
    requires
        0 <= k < all.len(),
        0 <= p <= r.len(),
        all[k].name.len() > 0,
        covers_upto(all, k, r),
        forall|q: int| 0 <= q < p ==> text_less(listing_key(#[trigger] r[q]), listing_key(all[k])),
        forall|q: int| p <= q < r.len() ==> text_less(listing_key(all[k]), listing_key(#[trigger] r[q])),
    ensures
        first_with_key(all, k),
{
    reveal(covers_upto);
    let kx = listing_key(all[k]);
    assert forall|m: int| 0 <= m < k && (#[trigger] all[m]).name.len() > 0 implies listing_key(all[m])
        != kx by {
        let i = choose|i: int| 0 <= i < r.len() && listing_key(#[trigger] r[i]) == listing_key(all[m]);
        if listing_key(all[m]) == kx {
            lemma_text_less_irreflexive(kx);
            if i < p {
                assert(text_less(listing_key(r[i]), kx));
            } else {
                assert(text_less(kx, listing_key(r[i])));
            }
        }
    }
}

/// A named process whose key falls between the keys before `p` and those from `p` on goes in
/// at `p`.
proof fn lemma_listing_inserts(all: Seq<ProcessInfoView>, k: int, r: Seq<ProcessInfoView>, p: int)
    requires
        0 <= k < all.len(),
        0 <= p <= r.len(),
        all[k].name.len() > 0,
        listing_upto(all, k, r),
        forall|q: int| p <= q < r.len() ==> text_less(listing_key(all[k]), listing_key(#[trigger] r[q])),
        p > 0 ==> listing_key(r[p - 1]) != listing_key(all[k]) && !text_less(
            listing_key(all[k]),
            listing_key(r[p - 1]),
        ),
    ensures
        listing_upto(all, k + 1, r.insert(p, all[k])),
{
    let kx = listing_key(all[k]);
    lemma_keys_below(r, p, kx);
    lemma_sorted_insert(r, p, all[k]);
    lemma_new_key_first(all, k, r, p);
    lemma_firsts_insert(all, k, r, p);
    lemma_covers_insert(all, k, r, p);
}

/// Putting the first process with its key in at `p` keeps every entry the first with its key.
proof fn lemma_firsts_insert(all: Seq<ProcessInfoView>, k: int, r: Seq<ProcessInfoView>, p: int)
    requires
        0 <= k < all.len(),
        0 <= p <= r.len(),
        first_with_key(all, k),
        firsts_upto(all, k, r),
    ensures
        firsts_upto(all, k + 1, r.insert(p, all[k])),
{
    reveal(firsts_upto);
    let n = r.insert(p, all[k]);
    assert forall|i: int| 0 <= i < n.len() implies first_of_key_upto(all, k + 1, #[trigger] n[i]) by {
        if i < p {
            assert(n[i] == r[i]);
            assert(first_of_key_upto(all, k, r[i]));
        } else if i == p {
            assert(all[k] == n[i]);
        } else {
            assert(n[i] == r[i - 1]);
            assert(first_of_key_upto(all, k, r[i - 1]));
        }
    }
}

/// Putting the process at `k` in at `p` keeps every named process up to `k` represented.
proof fn lemma_covers_insert(all: Seq<ProcessInfoView>, k: int, r: Seq<ProcessInfoView>, p: int)
    requires
        0 <= k < all.len(),
        0 <= p <= r.len(),
        covers_upto(all, k, r),
    ensures
        covers_upto(all, k + 1, r.insert(p, all[k])),
{
    reveal(covers_upto);
    let n = r.insert(p, all[k]);
    assert forall|m: int| 0 <= m < k + 1 && (#[trigger] all[m]).name.len() > 0 implies exists|i: int|
        0 <= i < n.len() && listing_key(#[trigger] n[i]) == listing_key(all[m]) by {
        if m < k {
            let i = choose|i: int| 0 <= i < r.len() && listing_key(#[trigger] r[i]) == listing_key(all[m]);
            if i < p {
                assert(n[i] == r[i]);
            } else {
                assert(n[i + 1] == r[i]);
            }
        } else {
            assert(n[p] == all[k]);
        }
    }
}

/// The running processes as the trigger picker lists them: one per name ignoring case (the
/// first one listed), nameless ones left out, ordered by the lowercase name.
pub fn list_unique(processes: Vec<ProcessInfo>) -> (listed: Vec<ProcessInfo>)
    ensures
        forall|i: int, j: int|
            0 <= i < j < listed@.len() ==> text_less(
                listing_key(#[trigger] listed.deep_view()[i]),
                listing_key(#[trigger] listed.deep_view()[j]),
            ),
        forall|i: int|
            0 <= i < listed@.len() ==> first_of_key_upto(
                processes.deep_view(),
                processes@.len() as int,
                #[trigger] listed.deep_view()[i],
            ),
        forall|k: int|
            0 <= k < processes@.len() && (#[trigger] processes.deep_view()[k]).name.len() > 0
                ==> exists|i: int|
                0 <= i < listed@.len() && listing_key(#[trigger] listed.deep_view()[i]) == listing_key(
                    processes.deep_view()[k],
                ),
{
    let ghost all = processes.deep_view();
    let mut listed: Vec<ProcessInfo> = Vec::new();
    let mut keys: Vec<Vec<char>> = Vec::new();
    let mut k: usize = 0;
    proof {
        reveal(sorted_by_key);
        reveal(firsts_upto);
        reveal(covers_upto);
    }
    while k < processes.len()
        invariant
            all == processes.deep_view(),
            k <= all.len(),
            keys@.len() == listed@.len(),
            forall|q: int| 0 <= q < keys@.len() ==> (#[trigger] keys@[q])@ == listing_key(listed.deep_view()[q]),
            listing_upto(all, k as int, listed.deep_view()),
        decreases all.len() - k,
    {
        assert(all[k as int] == processes@[k as int]@);
        let info = &processes[k];
        let ghost r = listed.deep_view();
        if info.name.unicode_len() > 0 {
            let key = chars_of(to_lowercase(info.name.as_str()).as_str());
            let ghost kx = listing_key(all[k as int]);
            let mut p = listed.len();
            while p > 0 && is_text_less(key.as_slice(), keys[p - 1].as_slice())
                invariant
                    p <= r.len(),
                    r == listed.deep_view(),
                    keys@.len() == r.len(),
                    forall|q: int| 0 <= q < keys@.len() ==> (#[trigger] keys@[q])@ == listing_key(r[q]),
                    key@ == kx,
                    forall|q: int| p <= q < r.len() ==> text_less(kx, listing_key(#[trigger] r[q])),
                decreases p,
            {
                p = p - 1;
            }
            let present = p > 0 && same_text(
                string_of(keys[p - 1].as_slice()).as_str(),
                string_of(key.as_slice()).as_str(),
            );
            proof {
                if p > 0 {
                    assert(keys@[p - 1]@ == listing_key(r[p - 1]));
                }
            }
            if !present {
                proof {
                    lemma_listing_inserts(all, k as int, r, p as int);
                }
                let ghost keys_before = keys@;
                listed.insert(p, info.clone());
                keys.insert(p, key);
                assert(listed.deep_view() =~= r.insert(p as int, all[k as int]));
                assert forall|q: int| 0 <= q < keys@.len() implies (#[trigger] keys@[q])@ == listing_key(
                    listed.deep_view()[q],
                ) by {
                    if q < p {
                        assert(keys@[q] == keys_before[q]);
                    } else if q > p {
                        assert(keys@[q] == keys_before[q - 1]);
                    }
                }
            } else {
                proof {
                    lemma_listing_keeps(all, k as int, r, p - 1);
                }
            }
        } else {
            proof {
                lemma_listing_keeps(all, k as int, r, 0);
            }
        }
        k = k + 1;
    }
    proof {
        reveal(sorted_by_key);
        reveal(firsts_upto);
        reveal(covers_upto);
    }
    listed
}

} // verus!
