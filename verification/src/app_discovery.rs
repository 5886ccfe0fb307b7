//! Which programs AutoStart offers when the pilot adds an app: the rules that filter, name,
//! merge and order what the Start Menu, the open windows and dropped files yield.
use vstd::prelude::*;

use std::collections::HashSet;

use crate::error::AppError;
use crate::models::{
    AppCandidate, AppCandidateView, CandidateSource, DropRejection, DroppedCandidate,
    DroppedCandidateView, DropResolution, ExeInfo, ExeInfoView, RejectedDrop, UrlCandidate, UrlCandidateView,
};
use crate::paths::{lowercase_extension, path_extension};
use crate::process_tracker::ProcessSample;
use crate::validation::{parsed_url_scheme, url_scheme};
use crate::paths::{file_stem, or_empty, path_file_stem};
use vstd::std_specs::hash::*;
use crate::process_tracker::{
    is_text_less, lemma_text_less_asymmetric, lemma_text_less_irreflexive,
    lemma_text_not_after_transitive, text_less,
};
use crate::text::{
    ascii_lower, ascii_lower_seq, char_ascii_lower, chars_of, has_infix, has_prefix,
    is_ascii_alnum, lowercase, same_text, seq_contains, seq_starts_with, string_of, to_lowercase, trim,
    trimmed,
};

verus! {

broadcast use vstd::std_specs::hash::group_hash_axioms;

pub const MAX_SHORTCUT_DEPTH: usize = 4;

/// Words that mark an uninstaller, in the languages pilots use.
pub open spec fn uninstall_words() -> Seq<Seq<char>> {
    seq!["uninstall"@, "desinstal"@, "deinstall"@, "désinstall"@]
}

/// Matched against names reduced to lowercase letters and digits, so "Little Navmap" and
/// `littlenavmap.exe` both hit `littlenavmap`.
pub open spec fn flight_sim_fragments() -> Seq<Seq<char>> {
    seq![
        "navigraph"@,
        "simbrief"@,
        "littlenavmap"@,
        "volanta"@,
        "vpilot"@,
        "xpilot"@,
        "ivao"@,
        "fsuipc"@,
        "spadnext"@,
        "couatl"@,
        "gsx"@,
        "fs2crew"@,
        "pilot2atc"@,
        "beyondatc"@,
        "sayintentions"@,
        "simtoolkitpro"@,
        "flybywire"@,
        "fenix"@,
        "pmdg"@,
        "aerosoft"@,
        "chaseplane"@,
        "fsrealistic"@,
        "simshaker"@,
        "selfloadingcargo"@,
        "addonslinker"@,
    ]
}

fn uninstall_word_list() -> (words: Vec<&'static str>)
    ensures
        words@.len() == uninstall_words().len(),
        forall|i: int| 0 <= i < words@.len() ==> (#[trigger] words@[i])@ == uninstall_words()[i],
{
    let words = vec!["uninstall", "desinstal", "deinstall", "désinstall"];
    words
}

fn flight_sim_fragment_list() -> (fragments: Vec<&'static str>)
    ensures
        fragments@.len() == flight_sim_fragments().len(),
        forall|i: int|
            0 <= i < fragments@.len() ==> (#[trigger] fragments@[i])@ == flight_sim_fragments()[i],
{
    let fragments = vec![
        "navigraph",
        "simbrief",
        "littlenavmap",
        "volanta",
        "vpilot",
        "xpilot",
        "ivao",
        "fsuipc",
        "spadnext",
        "couatl",
        "gsx",
        "fs2crew",
        "pilot2atc",
        "beyondatc",
        "sayintentions",
        "simtoolkitpro",
        "flybywire",
        "fenix",
        "pmdg",
        "aerosoft",
        "chaseplane",
        "fsrealistic",
        "simshaker",
        "selfloadingcargo",
        "addonslinker",
    ];
    fragments
}

/// Whether one of the words occurs in the text.
fn has_any_word(text: &[char], words: &Vec<&'static str>) -> (found: bool)
    ensures
        found == exists|i: int| 0 <= i < words@.len() && has_infix(text@, (#[trigger] words@[i])@),
{
    let mut i: usize = 0;
    while i < words.len()
        invariant
            i <= words@.len(),
            forall|j: int| 0 <= j < i ==> !has_infix(text@, (#[trigger] words@[j])@),
        decreases words@.len() - i,
    {
        let word = chars_of(words[i]);
        if seq_contains(text, word.as_slice()) {
            return true;
        }
        i = i + 1;
    }
    false
}

/// A shortcut or program named like an uninstaller, in any case.
pub open spec fn uninstaller_name(name: Seq<char>) -> bool {
    exists|i: int| 0 <= i < uninstall_words().len() && has_infix(lowercase(name), #[trigger] uninstall_words()[i])
}

pub fn is_uninstaller_name(name: &str) -> (uninstaller: bool)
    ensures
        uninstaller == uninstaller_name(name@),
{
    let lower = chars_of(to_lowercase(name).as_str());
    let words = uninstall_word_list();
    let found = has_any_word(lower.as_slice(), &words);
    proof {
        if found {
            let i = choose|i: int| 0 <= i < words@.len() && has_infix(lower@, (#[trigger] words@[i])@);
            assert(words@[i]@ == uninstall_words()[i]);
        } else {
            assert forall|i: int| 0 <= i < uninstall_words().len() implies !has_infix(
                lowercase(name@),
                #[trigger] uninstall_words()[i],
            ) by {
                assert(words@[i]@ == uninstall_words()[i]);
            }
        }
    }
    found
}

/// An executable whose file name marks it as an uninstaller (`unins000.exe`, `Uninstall.exe`).
pub open spec fn uninstaller_exe(exe_path: Seq<char>) -> bool {
    let name = lowercase(or_empty(path_file_stem(exe_path)));
    has_prefix(name, "unins"@) || has_infix(name, "uninst"@) || uninstaller_name(name)
}

pub fn is_uninstaller_exe(exe_path: &str) -> (uninstaller: bool)
    ensures
        uninstaller == uninstaller_exe(exe_path@),
{
    let name = to_lowercase(file_stem(exe_path).as_str());
    let chars = chars_of(name.as_str());
    let unins = chars_of("unins");
    let uninst = chars_of("uninst");
    seq_starts_with(chars.as_slice(), unins.as_slice()) || seq_contains(
        chars.as_slice(),
        uninst.as_slice(),
    ) || is_uninstaller_name(name.as_str())
}

/// Forward slashes read as backslashes.
pub open spec fn backslashed(path: Seq<char>) -> Seq<char> {
    path.map_values(|c: char| if c == '/' { '\\' } else { c })
}

/// The text without its trailing backslashes.
pub open spec fn without_trailing_backslashes(text: Seq<char>) -> Seq<char>
    decreases text.len(),
{
    if text.len() > 0 && text.last() == '\\' {
        without_trailing_backslashes(text.drop_last())
    } else {
        text
    }
}

/// Whether `path` lies inside `dir`, ignoring case and the kind of slash; a folder whose name
/// merely starts like `dir` is not inside it.
pub open spec fn under_dir(path: Seq<char>, dir: Option<Seq<char>>) -> bool {
    match dir {
        None => false,
        Some(dir) => {
            let path = backslashed(lowercase(path));
            let base = without_trailing_backslashes(backslashed(lowercase(dir)));
            has_prefix(path, base) && path.len() > base.len() && path[base.len() as int] == '\\'
        },
    }
}

fn backslash_chars(text: &str) -> (chars: Vec<char>)
    ensures
        chars@ == backslashed(text@),
{
    let source = chars_of(text);
    let mut chars: Vec<char> = Vec::new();
    let mut i: usize = 0;
    while i < source.len()
        invariant
            source@ == text@,
            i <= source@.len(),
            chars@ == backslashed(source@.take(i as int)),
        decreases source@.len() - i,
    {
        let c = source[i];
        chars.push(if c == '/' { '\\' } else { c });
        i = i + 1;
        assert(chars@ =~= backslashed(source@.take(i as int)));
    }
    assert(source@.take(i as int) =~= source@);
    chars
}

pub fn is_under_dir(path: &str, dir: Option<&str>) -> (inside: bool)
    ensures
        inside == under_dir(path@, dir.deep_view()),
{
    let Some(dir) = dir else {
        return false;
    };
    let path = backslash_chars(to_lowercase(path).as_str());
    let mut base = backslash_chars(to_lowercase(dir).as_str());
    let ghost full = base@;
    while base.len() > 0 && base[base.len() - 1] == '\\'
        invariant
            without_trailing_backslashes(base@) == without_trailing_backslashes(full),
        decreases base@.len(),
    {
        base.pop();
    }
    assert(without_trailing_backslashes(base@) == base@);
    seq_starts_with(path.as_slice(), base.as_slice()) && path.len() > base.len() && path[base.len()]
        == '\\'
}

/// The lowercase ASCII letters and digits of a text, in order.
pub open spec fn compacted(text: Seq<char>) -> Seq<char> {
    ascii_lower_seq(text.filter(|c: char| is_ascii_alnum(c)))
}

pub fn compact(text: &str) -> (kept: String)
    ensures
        kept@ == compacted(text@),
{
    let chars = chars_of(text);
    let ghost alnum = |c: char| is_ascii_alnum(c);
    let mut kept: Vec<char> = Vec::new();
    let mut i: usize = 0;
    while i < chars.len()
        invariant
            chars@ == text@,
            alnum == (|c: char| is_ascii_alnum(c)),
            i <= chars@.len(),
            kept@ == ascii_lower_seq(chars@.take(i as int).filter(alnum)),
        decreases chars@.len() - i,
    {
        proof {
            reveal(Seq::filter);
            assert(chars@.take(i + 1).drop_last() =~= chars@.take(i as int));
        }
        let c = chars[i];
        let ghost before = chars@.take(i as int).filter(alnum);
        if ('a' <= c && c <= 'z') || ('A' <= c && c <= 'Z') || ('0' <= c && c <= '9') {
            kept.push(char_ascii_lower(c));
            assert(ascii_lower_seq(before.push(c)) =~= ascii_lower_seq(before).push(ascii_lower(c)));
        }
        i = i + 1;
    }
    assert(chars@.take(i as int) =~= chars@);
    string_of(kept.as_slice())
}

/// Popular flight simulation tools come first in the list.
pub open spec fn flight_sim_suggestion(name: Seq<char>, exe_path: Seq<char>) -> bool {
    exists|i: int|
        0 <= i < flight_sim_fragments().len() && (has_infix(
            compacted(name),
            #[trigger] flight_sim_fragments()[i],
        ) || has_infix(compacted(or_empty(path_file_stem(exe_path))), flight_sim_fragments()[i]))
}

pub fn is_flight_sim_suggestion(name: &str, exe_path: &str) -> (suggested: bool)
    ensures
        suggested == flight_sim_suggestion(name@, exe_path@),
{
    let by_name = chars_of(compact(name).as_str());
    let by_file = chars_of(compact(file_stem(exe_path).as_str()).as_str());
    let fragments = flight_sim_fragment_list();
    let mut i: usize = 0;
    while i < fragments.len()
        invariant
            by_name@ == compacted(name@),
            by_file@ == compacted(or_empty(path_file_stem(exe_path@))),
            fragments@.len() == flight_sim_fragments().len(),
            forall|k: int|
                0 <= k < fragments@.len() ==> (#[trigger] fragments@[k])@ == flight_sim_fragments()[k],
            i <= fragments@.len(),
            forall|k: int|
                0 <= k < i ==> !(has_infix(by_name@, #[trigger] flight_sim_fragments()[k])
                    || has_infix(by_file@, flight_sim_fragments()[k])),
        decreases fragments@.len() - i,
    {
        let fragment = chars_of(fragments[i]);
        assert(fragment@ == flight_sim_fragments()[i as int]);
        if seq_contains(by_name.as_slice(), fragment.as_slice()) || seq_contains(
            by_file.as_slice(),
            fragment.as_slice(),
        ) {
            return true;
        }
        i = i + 1;
    }
    false
}

/// What makes two candidates the same program: the path in lowercase and the arguments.
pub open spec fn candidate_key(candidate: AppCandidateView) -> (Seq<char>, Seq<char>) {
    (lowercase(candidate.exe_path), or_empty(candidate.args))
}

/// The candidates without repeats: the first occurrence wins, so callers list their
/// preferred source first.
pub open spec fn deduped(candidates: Seq<AppCandidateView>) -> Seq<AppCandidateView>
    decreases candidates.len(),
{
    if candidates.len() == 0 {
        candidates
    } else {
        let rest = deduped(candidates.drop_last());
        if exists|j: int|
            0 <= j < candidates.len() - 1 && candidate_key(#[trigger] candidates[j]) == candidate_key(
                candidates.last(),
            ) {
            rest
        } else {
            rest.push(candidates.last())
        }
    }
}

fn args_text(args: &Option<String>) -> (text: String)
    ensures
        text@ == or_empty(args.deep_view()),
{
    match args {
        Some(args) => args.clone(),
        None => String::new(),
    }
}

/// Whether a candidate before `index` is the same program.
fn repeats_earlier(candidates: &Vec<AppCandidate>, index: usize) -> (repeats: bool)
    requires
        index < candidates@.len(),
    ensures
        repeats == exists|j: int|
            0 <= j < index && candidate_key(#[trigger] candidates.deep_view()[j]) == candidate_key(
                candidates.deep_view()[index as int],
            ),
{
    let ghost all = candidates.deep_view();
    assert(all[index as int] == candidates@[index as int]@);
    let path = to_lowercase(candidates[index].exe_path.as_str());
    let args = args_text(&candidates[index].args);
    let mut j: usize = 0;
    while j < index
        invariant
            all == candidates.deep_view(),
            j <= index < all.len(),
            path@ == lowercase(all[index as int].exe_path),
            args@ == or_empty(all[index as int].args),
            forall|k: int|
                0 <= k < j ==> candidate_key(#[trigger] all[k]) != candidate_key(all[index as int]),
        decreases index - j,
    {
        assert(all[j as int] == candidates@[j as int]@);
        let other_path = to_lowercase(candidates[j].exe_path.as_str());
        let other_args = args_text(&candidates[j].args);
        if same_text(other_path.as_str(), path.as_str()) && same_text(other_args.as_str(), args.as_str()) {
            assert(candidate_key(all[j as int]) == candidate_key(all[index as int]));
            return true;
        }
        j = j + 1;
    }
    false
}

pub fn dedupe_candidates(candidates: Vec<AppCandidate>) -> (kept: Vec<AppCandidate>)
    ensures
        kept.deep_view() == deduped(candidates.deep_view()),
{
    let ghost all = candidates.deep_view();
    let mut kept: Vec<AppCandidate> = Vec::new();
    let mut i: usize = 0;
    while i < candidates.len()
        invariant
            all == candidates.deep_view(),
            i <= all.len(),
            kept.deep_view() == deduped(all.take(i as int)),
        decreases all.len() - i,
    {
        let ghost prefix = all.take(i + 1);
        assert(prefix.drop_last() =~= all.take(i as int));
        assert(prefix.last() == all[i as int]);
        assert forall|j: int| 0 <= j < i implies prefix[j] == all[j] by {}
        if !repeats_earlier(&candidates, i) {
            let ghost before = kept.deep_view();
            assert(all[i as int] == candidates@[i as int]@);
            kept.push(candidates[i].clone());
            assert(kept.deep_view() =~= before.push(all[i as int]));
        }
        i = i + 1;
    }
    assert(all.take(i as int) =~= all);
    kept
}

/// The key the list is sorted by: the name in lowercase.
pub open spec fn name_key(candidate: AppCandidateView) -> Seq<char> {
    lowercase(candidate.name)
}

/// Candidates whose key is `key`.
pub open spec fn named(key: Seq<char>) -> spec_fn(AppCandidateView) -> bool {
    |candidate: AppCandidateView| name_key(candidate) == key
}

/// Ordered by name, ignoring case.
pub open spec fn sorted_by_name(candidates: Seq<AppCandidateView>) -> bool {
    forall|i: int, j: int|
        0 <= i < j < candidates.len() ==> !text_less(
            name_key(#[trigger] candidates[j]),
            name_key(#[trigger] candidates[i]),
        )
}

/// Each name keeps its candidates, in their order: together with `sorted_by_name` this says the
/// sort is a stable permutation.
pub open spec fn same_per_name(a: Seq<AppCandidateView>, b: Seq<AppCandidateView>) -> bool {
    forall|key: Seq<char>| #[trigger] a.filter(named(key)) == b.filter(named(key))
}

proof fn lemma_filter_one(c: AppCandidateView, key: Seq<char>)
    ensures
        seq![c].filter(named(key)) == if name_key(c) == key {
            seq![c]
        } else {
            Seq::<AppCandidateView>::empty()
        },
{
    reveal(Seq::filter);
    assert(seq![c].drop_last() =~= Seq::<AppCandidateView>::empty());
    assert(seq![c].last() == c);
    assert(Seq::<AppCandidateView>::empty().filter(named(key)) =~= Seq::<AppCandidateView>::empty());
}

proof fn lemma_filter_none(s: Seq<AppCandidateView>, key: Seq<char>)
    requires
        forall|q: int| 0 <= q < s.len() ==> name_key(#[trigger] s[q]) != key,
    ensures
        s.filter(named(key)) == Seq::<AppCandidateView>::empty(),
    decreases s.len(),
{
    reveal(Seq::filter);
    if s.len() > 0 {
        lemma_filter_none(s.drop_last(), key);
        assert(name_key(s[s.len() - 1]) != key);
    }
}

/// Inserting `c` where every earlier key comes no later and every later key comes strictly
/// after keeps the order and adds `c` at the end of its own name.
proof fn lemma_insert_keeps_order(r: Seq<AppCandidateView>, p: int, c: AppCandidateView)
    requires
        0 <= p <= r.len(),
        sorted_by_name(r),
        forall|q: int| 0 <= q < p ==> !text_less(name_key(c), name_key(#[trigger] r[q])),
        forall|q: int| p <= q < r.len() ==> text_less(name_key(c), name_key(#[trigger] r[q])),
    ensures
        sorted_by_name(r.insert(p, c)),
        forall|key: Seq<char>|
            #[trigger] r.insert(p, c).filter(named(key)) == r.filter(named(key)) + seq![c].filter(
                named(key),
            ),
{
    let n = r.insert(p, c);
    assert forall|i: int, j: int| 0 <= i < j < n.len() implies !text_less(
        name_key(#[trigger] n[j]),
        name_key(#[trigger] n[i]),
    ) by {
        if j < p {
            assert(n[i] == r[i] && n[j] == r[j]);
        } else if j == p {
            assert(n[i] == r[i]);
        } else if i == p {
            assert(n[j] == r[j - 1]);
            lemma_text_less_asymmetric(name_key(c), name_key(r[j - 1]));
        } else if i < p {
            assert(n[i] == r[i] && n[j] == r[j - 1]);
        } else {
            assert(n[i] == r[i - 1] && n[j] == r[j - 1]);
        }
    }
    assert forall|key: Seq<char>|
        #[trigger] n.filter(named(key)) == r.filter(named(key)) + seq![c].filter(named(key)) by {
        let front = r.take(p);
        let back = r.skip(p);
        assert(r =~= front + back);
        assert(n =~= front + seq![c] + back);
        Seq::filter_distributes_over_add(front, back, named(key));
        Seq::filter_distributes_over_add(front + seq![c], back, named(key));
        Seq::filter_distributes_over_add(front, seq![c], named(key));
        lemma_filter_one(c, key);
        if name_key(c) == key {
            assert forall|q: int| 0 <= q < back.len() implies name_key(#[trigger] back[q]) != key by {
                assert(back[q] == r[p + q]);
                lemma_text_less_irreflexive(key);
            }
            lemma_filter_none(back, key);
            assert(back.filter(named(key)) =~= Seq::<AppCandidateView>::empty());
        }
        assert(n.filter(named(key)) =~= r.filter(named(key)) + seq![c].filter(named(key)));
    }
}

/// Sorts by name ignoring case; candidates with the same name keep their order.
pub fn sort_by_name(candidates: &mut Vec<AppCandidate>)
    ensures
        sorted_by_name(final(candidates).deep_view()),
        same_per_name(final(candidates).deep_view(), old(candidates).deep_view()),
{
    let ghost all = candidates.deep_view();
    let mut sorted: Vec<AppCandidate> = Vec::new();
    let mut keys: Vec<Vec<char>> = Vec::new();
    let mut i: usize = 0;
    proof {
        assert(all.take(0) =~= Seq::<AppCandidateView>::empty());
        assert(sorted.deep_view() =~= Seq::<AppCandidateView>::empty());
    }
    while i < candidates.len()
        invariant
            all == candidates.deep_view(),
            i <= all.len(),
            keys@.len() == sorted@.len(),
            forall|q: int| 0 <= q < keys@.len() ==> (#[trigger] keys@[q])@ == name_key(sorted.deep_view()[q]),
            sorted_by_name(sorted.deep_view()),
            same_per_name(sorted.deep_view(), all.take(i as int)),
        decreases all.len() - i,
    {
        assert(all[i as int] == candidates@[i as int]@);
        let item = candidates[i].clone();
        let key = chars_of(to_lowercase(item.name.as_str()).as_str());
        let ghost r = sorted.deep_view();
        let mut p = sorted.len();
        while p > 0 && is_text_less(key.as_slice(), keys[p - 1].as_slice())
            invariant
                p <= r.len(),
                r == sorted.deep_view(),
                keys@.len() == r.len(),
                forall|q: int| 0 <= q < keys@.len() ==> (#[trigger] keys@[q])@ == name_key(r[q]),
                key@ == name_key(item@),
                forall|q: int| p <= q < r.len() ==> text_less(key@, name_key(#[trigger] r[q])),
            decreases p,
        {
            p = p - 1;
        }
        assert forall|q: int| 0 <= q < p implies !text_less(name_key(item@), name_key(#[trigger] r[q])) by {
            if p > 0 {
                assert(keys@[p - 1]@ == name_key(r[p - 1]));
                if q < p - 1 {
                    lemma_text_not_after_transitive(name_key(r[q]), name_key(r[p - 1]), name_key(item@));
                }
            }
        }
        proof {
            lemma_insert_keeps_order(r, p as int, item@);
        }
        let ghost keys_before = keys@;
        sorted.insert(p, item);
        keys.insert(p, key);
        assert(sorted.deep_view() =~= r.insert(p as int, all[i as int]));
        assert forall|q: int| 0 <= q < keys@.len() implies (#[trigger] keys@[q])@ == name_key(
            sorted.deep_view()[q],
        ) by {
            if q < p {
                assert(keys@[q] == keys_before[q]);
            } else if q > p {
                assert(keys@[q] == keys_before[q - 1]);
            }
        }
        assert forall|k: Seq<char>| #[trigger] sorted.deep_view().filter(named(k)) == all.take(i + 1).filter(
            named(k),
        ) by {
            assert(all.take(i + 1) =~= all.take(i as int) + seq![all[i as int]]);
            Seq::filter_distributes_over_add(all.take(i as int), seq![all[i as int]], named(k));
            assert(r.filter(named(k)) == all.take(i as int).filter(named(k)));
        }
        i = i + 1;
    }
    assert(all.take(i as int) =~= all);
    *candidates = sorted;
}

/// The position of the first `c` in a text.
pub open spec fn first_index_of(text: Seq<char>, c: char) -> Option<int>
    decreases text.len(),
{
    if text.len() == 0 {
        None
    } else if text[0] == c {
        Some(0)
    } else {
        match first_index_of(text.drop_first(), c) {
            Some(i) => Some(i + 1),
            None => None,
        }
    }
}

/// The first position of a character holds it, and no earlier one does.
pub proof fn lemma_first_index_of(text: Seq<char>, c: char)
    ensures
        match first_index_of(text, c) {
            Some(i) => 0 <= i < text.len() && text[i] == c && forall|j: int|
                0 <= j < i ==> #[trigger] text[j] != c,
            None => forall|j: int| 0 <= j < text.len() ==> #[trigger] text[j] != c,
        },
    decreases text.len(),
{
    if text.len() > 0 && text[0] != c {
        lemma_first_index_of(text.drop_first(), c);
        assert forall|j: int| 1 <= j < text.len() implies text[j] == text.drop_first()[j - 1] by {}
    }
}

/// A line ending in `\r\n` loses its carriage return too.
pub open spec fn without_cr(line: Seq<char>) -> Seq<char> {
    if line.len() > 0 && line.last() == '\r' {
        line.drop_last()
    } else {
        line
    }
}

/// The lines of a text, as `str::lines` splits it: at each `\n`, dropping a `\r` before it;
/// a final `\n` ends the last line rather than starting an empty one.
pub open spec fn lines_of(text: Seq<char>) -> Seq<Seq<char>>
    decreases text.len(),
{
    if text.len() == 0 {
        Seq::empty()
    } else {
        match first_index_of(text, '\n') {
            Some(i) => {
                proof {
                    lemma_first_index_of(text, '\n');
                }
                seq![without_cr(text.take(i))] + lines_of(text.skip(i + 1))
            },
            None => seq![text],
        }
    }
}

/// The URL of an internet shortcut (`.url`): the `URL=` line of the `[InternetShortcut]`
/// section, keys and section names in any case.
pub open spec fn shortcut_url_from(lines: Seq<Seq<char>>, i: int, in_section: bool) -> Option<
    Seq<char>,
>
    decreases lines.len() - i,
{
    if i < 0 || i >= lines.len() {
        None
    } else {
        let line = trimmed(lines[i]);
        if line.len() > 0 && line[0] == '[' {
            shortcut_url_from(lines, i + 1, ascii_lower_seq(line) == "[internetshortcut]"@)
        } else {
            match first_index_of(line, '=') {
                None => shortcut_url_from(lines, i + 1, in_section),
                Some(p) => {
                    let key = trimmed(line.take(p));
                    let value = trimmed(line.skip(p + 1));
                    if in_section && ascii_lower_seq(key) == "url"@ && value.len() > 0 {
                        Some(value)
                    } else {
                        shortcut_url_from(lines, i + 1, in_section)
                    }
                },
            }
        }
    }
}

pub open spec fn internet_shortcut_url(content: Seq<char>) -> Option<Seq<char>> {
    shortcut_url_from(lines_of(content), 0, false)
}

proof fn lemma_first_index_is(text: Seq<char>, c: char, k: int)
    requires
        0 <= k < text.len(),
        text[k] == c,
        forall|j: int| 0 <= j < k ==> #[trigger] text[j] != c,
    ensures
        first_index_of(text, c) == Some(k),
{
    lemma_first_index_of(text, c);
    match first_index_of(text, c) {
        Some(i) => {
            if i < k {
                assert(text[i] != c);
            } else if i > k {
                assert(text[k] != c);
            }
        },
        None => {
            assert(text[k] != c);
        },
    }
}

fn split_lines(content: &str) -> (lines: Vec<Vec<char>>)
    ensures
        lines@.len() == lines_of(content@).len(),
        forall|i: int| 0 <= i < lines@.len() ==> (#[trigger] lines@[i])@ == lines_of(content@)[i],
{
    let chars = chars_of(content);
    let ghost text = chars@;
    let mut lines: Vec<Vec<char>> = Vec::new();
    let ghost mut done: Seq<Seq<char>> = Seq::empty();
    let mut current: Vec<char> = Vec::new();
    let mut start: usize = 0;
    let mut i: usize = 0;
    assert(text.skip(0) =~= text);
    assert(done + lines_of(text) =~= lines_of(text));
    while i < chars.len()
        invariant
            text == chars@,
            text == content@,
            start <= i <= text.len(),
            current@ == text.subrange(start as int, i as int),
            forall|j: int| start <= j < i ==> #[trigger] text[j] != '\n',
            lines@.len() == done.len(),
            forall|q: int| 0 <= q < lines@.len() ==> (#[trigger] lines@[q])@ == done[q],
            done + lines_of(text.skip(start as int)) == lines_of(text),
        decreases text.len() - i,
    {
        if chars[i] == '\n' {
            let ghost rest = text.skip(start as int);
            proof {
                assert forall|j: int| 0 <= j < i - start implies #[trigger] rest[j] != '\n' by {
                    assert(rest[j] == text[start + j]);
                }
                lemma_first_index_is(rest, '\n', i - start);
                assert(rest.take(i - start) =~= current@);
                assert(rest.skip(i - start + 1) =~= text.skip(i + 1));
            }
            let mut line = current;
            if line.len() > 0 && line[line.len() - 1] == '\r' {
                line.pop();
            }
            assert(line@ == without_cr(text.subrange(start as int, i as int)));
            proof {
                done = done.push(line@);
            }
            lines.push(line);
            current = Vec::new();
            start = i + 1;
            assert(current@ =~= text.subrange(start as int, start as int));
        } else {
            current.push(chars[i]);
            assert(current@ =~= text.subrange(start as int, i + 1));
        }
        i = i + 1;
    }
    let ghost rest = text.skip(start as int);
    assert(rest =~= current@);
    proof {
        lemma_first_index_of(rest, '\n');
        assert forall|j: int| 0 <= j < rest.len() implies rest[j] != '\n' by {
            assert(rest[j] == text[start + j]);
        }
    }
    if current.len() > 0 {
        proof {
            done = done.push(current@);
        }
        lines.push(current);
    } else {
        assert(rest =~= Seq::<char>::empty());
    }
    assert(done =~= lines_of(text));
    lines
}

/// The position of the first `=` of a line.
fn find_equals(line: &[char]) -> (found: Option<usize>)
    ensures
        match found {
            Some(p) => p < line@.len() && first_index_of(line@, '=') == Some(p as int),
            None => first_index_of(line@, '=') is None,
        },
{
    proof {
        lemma_first_index_of(line@, '=');
    }
    let mut p: usize = 0;
    while p < line.len()
        invariant
            p <= line@.len(),
            forall|j: int| 0 <= j < p ==> #[trigger] line@[j] != '=',
        decreases line@.len() - p,
    {
        if line[p] == '=' {
            proof {
                lemma_first_index_is(line@, '=', p as int);
            }
            return Some(p);
        }
        p = p + 1;
    }
    None
}

fn chars_between(chars: &[char], from: usize, to: usize) -> (part: String)
    requires
        from <= to <= chars@.len(),
    ensures
        part@ == chars@.subrange(from as int, to as int),
{
    let mut piece: Vec<char> = Vec::new();
    let mut k = from;
    while k < to
        invariant
            from <= k <= to,
            to <= chars@.len(),
            piece@ == chars@.subrange(from as int, k as int),
        decreases to - k,
    {
        piece.push(chars[k]);
        k = k + 1;
        assert(piece@ =~= chars@.subrange(from as int, k as int));
    }
    string_of(piece.as_slice())
}

fn same_ascii_lower(text: &[char], lower_target: &str) -> (same: bool)
    ensures
        same == (ascii_lower_seq(text@) == lower_target@),
{
    let lower = crate::text::ascii_lowercase(text);
    same_text(string_of(lower.as_slice()).as_str(), lower_target)
}

/// Reads the URL an internet shortcut (`.url` file) points to.
pub fn parse_internet_shortcut(content: &str) -> (url: Option<String>)
    ensures
        url.deep_view() == internet_shortcut_url(content@),
{
    let lines = split_lines(content);
    let ghost all = lines_of(content@);
    let mut in_section = false;
    let mut i: usize = 0;
    while i < lines.len()
        invariant
            all == lines_of(content@),
            lines@.len() == all.len(),
            forall|q: int| 0 <= q < lines@.len() ==> (#[trigger] lines@[q])@ == all[q],
            i <= all.len(),
            shortcut_url_from(all, i as int, in_section) == internet_shortcut_url(content@),
        decreases all.len() - i,
    {
        assert(lines@[i as int]@ == all[i as int]);
        let text = string_of(lines[i].as_slice());
        let line = chars_of(trim(text.as_str()).as_str());
        if line.len() > 0 && line[0] == '[' {
            in_section = same_ascii_lower(line.as_slice(), "[internetshortcut]");
        } else if let Some(p) = find_equals(line.as_slice()) {
            let key_text = chars_between(line.as_slice(), 0, p);
            let value_text = chars_between(line.as_slice(), p + 1, line.len());
            assert(key_text@ =~= line@.take(p as int));
            assert(value_text@ =~= line@.skip(p + 1));
            let key = chars_of(trim(key_text.as_str()).as_str());
            let value = trim(value_text.as_str());
            if in_section && same_ascii_lower(key.as_slice(), "url") && value.unicode_len() > 0 {
                return Some(value);
            }
        }
        i = i + 1;
    }
    None
}

/// Where a Windows shortcut (`.lnk`) points.
pub struct ShortcutTarget {
    pub target_path: String,
    pub args: Option<String>,
    pub working_dir: Option<String>,
}

pub struct ShortcutTargetView {
    pub target_path: Seq<char>,
    pub args: Option<Seq<char>>,
    pub working_dir: Option<Seq<char>>,
}

impl View for ShortcutTarget {
    type V = ShortcutTargetView;

    open spec fn view(&self) -> ShortcutTargetView {
        ShortcutTargetView {
            target_path: self.target_path@,
            args: self.args.deep_view(),
            working_dir: self.working_dir.deep_view(),
        }
    }
}

impl DeepView for ShortcutTarget {
    type V = ShortcutTargetView;

    open spec fn deep_view(&self) -> ShortcutTargetView {
        self@
    }
}

/// What inspecting an executable gave.
pub open spec fn inspection(inspected: Result<ExeInfo, AppError>) -> Result<ExeInfoView, AppError> {
    match inspected {
        Ok(info) => Ok(info@),
        Err(error) => Err(error),
    }
}

/// A text that is not blank, or `None`.
pub open spec fn not_blank(text: Option<Seq<char>>) -> Option<Seq<char>> {
    match text {
        Some(t) => if trimmed(t).len() > 0 {
            Some(t)
        } else {
            None
        },
        None => None,
    }
}

/// Why an executable that could not be inspected is refused.
pub open spec fn rejection_of(error: AppError) -> DropRejection {
    match error {
        AppError::ExecutableNotFound(_) => DropRejection::ExecutableNotFound,
        _ => DropRejection::UnsupportedFile,
    }
}

/// The candidate for an executable: the shortcut's name when it has one, else the product
/// name; blank arguments are dropped.
pub open spec fn candidate_of(
    exe_path: Seq<char>,
    shortcut_name: Option<Seq<char>>,
    args: Option<Seq<char>>,
    working_dir: Option<Seq<char>>,
    source: CandidateSource,
    inspected: Result<ExeInfoView, AppError>,
) -> Result<AppCandidateView, DropRejection> {
    match inspected {
        Err(error) => Err(rejection_of(error)),
        Ok(info) => {
            let name = match not_blank(shortcut_name) {
                Some(name) => name,
                None => info.product_name,
            };
            Ok(
                AppCandidateView {
                    name,
                    exe_path,
                    args: not_blank(args),
                    working_dir,
                    process_name: info.process_name,
                    icon_base64: info.icon_base64,
                    source,
                    suggested: flight_sim_suggestion(name, exe_path),
                },
            )
        },
    }
}

fn keep_not_blank(text: Option<String>) -> (kept: Option<String>)
    ensures
        kept.deep_view() == not_blank(text.deep_view()),
{
    match text {
        Some(t) => if trim(t.as_str()).unicode_len() > 0 {
            Some(t)
        } else {
            None
        },
        None => None,
    }
}

pub fn app_candidate(
    exe_path: &str,
    shortcut_name: Option<String>,
    args: Option<String>,
    working_dir: Option<String>,
    source: CandidateSource,
    inspected: &Result<ExeInfo, AppError>,
) -> (candidate: Result<AppCandidate, DropRejection>)
    ensures
        match candidate {
            Ok(c) => candidate_of(
                exe_path@,
                shortcut_name.deep_view(),
                args.deep_view(),
                working_dir.deep_view(),
                source,
                inspection(*inspected),
            ) == Ok::<AppCandidateView, DropRejection>(c@),
            Err(r) => candidate_of(
                exe_path@,
                shortcut_name.deep_view(),
                args.deep_view(),
                working_dir.deep_view(),
                source,
                inspection(*inspected),
            ) == Err::<AppCandidateView, DropRejection>(r),
        },
{
    let info = match inspected {
        Ok(info) => info,
        Err(AppError::ExecutableNotFound(_)) => {
            return Err(DropRejection::ExecutableNotFound);
        },
        Err(_) => {
            return Err(DropRejection::UnsupportedFile);
        },
    };
    let name = match keep_not_blank(shortcut_name) {
        Some(name) => name,
        None => info.product_name.clone(),
    };
    let suggested = is_flight_sim_suggestion(name.as_str(), exe_path);
    Ok(
        AppCandidate {
            name,
            exe_path: crate::text::owned(exe_path),
            args: keep_not_blank(args),
            working_dir,
            process_name: info.process_name.clone(),
            icon_base64: crate::models::clone_opt_string(&info.icon_base64),
            source,
            suggested,
        },
    )
}

/// The extension in lowercase, when the path has one.
pub open spec fn extension_lower(path: Seq<char>) -> Option<Seq<char>> {
    match path_extension(path) {
        Some(ext) => Some(lowercase(ext)),
        None => None,
    }
}

fn extension_is(path: &str, wanted: &str) -> (is: bool)
    ensures
        is == (extension_lower(path@) == Some(wanted@)),
{
    match lowercase_extension(path) {
        Some(ext) => same_text(ext.as_str(), wanted),
        None => false,
    }
}

/// The candidate behind a shortcut: only shortcuts to an executable are accepted.
pub open spec fn shortcut_candidate(
    shortcut: Seq<char>,
    target: ShortcutTargetView,
    source: CandidateSource,
    inspected: Result<ExeInfoView, AppError>,
) -> Result<AppCandidateView, DropRejection> {
    if extension_lower(target.target_path) != Some("exe"@) {
        Err(DropRejection::UnsupportedShortcut)
    } else {
        candidate_of(
            target.target_path,
            Some(or_empty(path_file_stem(shortcut))),
            target.args,
            target.working_dir,
            source,
            inspected,
        )
    }
}

/// `inspected` is what inspecting the shortcut's target gave.
pub fn app_from_shortcut(
    shortcut: &str,
    target: ShortcutTarget,
    source: CandidateSource,
    inspected: &Result<ExeInfo, AppError>,
) -> (candidate: Result<AppCandidate, DropRejection>)
    ensures
        match candidate {
            Ok(c) => shortcut_candidate(shortcut@, target@, source, inspection(*inspected)) == Ok::<
                AppCandidateView,
                DropRejection,
            >(c@),
            Err(r) => shortcut_candidate(shortcut@, target@, source, inspection(*inspected)) == Err::<
                AppCandidateView,
                DropRejection,
            >(r),
        },
{
    if !extension_is(target.target_path.as_str(), "exe") {
        return Err(DropRejection::UnsupportedShortcut);
    }
    let ShortcutTarget { target_path, args, working_dir } = target;
    app_candidate(target_path.as_str(), Some(file_stem(shortcut)), args, working_dir, source, inspected)
}

/// Web addresses only: `http` and `https`.
pub open spec fn web_url(value: Seq<char>) -> bool {
    parsed_url_scheme(value) == Some("http"@) || parsed_url_scheme(value) == Some("https"@)
}

fn is_web_url(value: &str) -> (web: bool)
    ensures
        web == web_url(value@),
{
    match url_scheme(value) {
        Some(scheme) => same_text(scheme.as_str(), "http") || same_text(scheme.as_str(), "https"),
        None => false,
    }
}

/// The link of a dropped internet shortcut; `content` is the file's text, `None` when it
/// could not be read.
pub open spec fn url_candidate_of(path: Seq<char>, content: Option<Seq<char>>) -> Result<
    UrlCandidateView,
    DropRejection,
> {
    match content {
        None => Err(DropRejection::UnsupportedFile),
        Some(content) => match internet_shortcut_url(content) {
            None => Err(DropRejection::UnsupportedUrl),
            Some(url) => if web_url(url) {
                Ok(UrlCandidateView { name: or_empty(path_file_stem(path)), url })
            } else {
                Err(DropRejection::UnsupportedUrl)
            },
        },
    }
}

pub fn url_from_internet_shortcut(path: &str, content: Option<String>) -> (candidate: Result<
    UrlCandidate,
    DropRejection,
>)
    ensures
        match candidate {
            Ok(c) => url_candidate_of(path@, content.deep_view()) == Ok::<UrlCandidateView, DropRejection>(c@),
            Err(r) => url_candidate_of(path@, content.deep_view()) == Err::<UrlCandidateView, DropRejection>(r),
        },
{
    let Some(content) = content else {
        return Err(DropRejection::UnsupportedFile);
    };
    let Some(url) = parse_internet_shortcut(content.as_str()) else {
        return Err(DropRejection::UnsupportedUrl);
    };
    if !is_web_url(url.as_str()) {
        return Err(DropRejection::UnsupportedUrl);
    }
    Ok(UrlCandidate { name: file_stem(path), url })
}

/// What a dropped file is, by its extension.
#[derive(Debug, Clone, Copy, PartialEq, Eq, Structural)]
pub enum DropKind {
    Executable,
    Shortcut,
    InternetShortcut,
    Unsupported,
}

pub open spec fn drop_kind_of(path: Seq<char>) -> DropKind {
    if extension_lower(path) == Some("exe"@) {
        DropKind::Executable
    } else if extension_lower(path) == Some("lnk"@) {
        DropKind::Shortcut
    } else if extension_lower(path) == Some("url"@) {
        DropKind::InternetShortcut
    } else {
        DropKind::Unsupported
    }
}

pub fn drop_kind(path: &str) -> (kind: DropKind)
    ensures
        kind == drop_kind_of(path@),
{
    if extension_is(path, "exe") {
        DropKind::Executable
    } else if extension_is(path, "lnk") {
        DropKind::Shortcut
    } else if extension_is(path, "url") {
        DropKind::InternetShortcut
    } else {
        DropKind::Unsupported
    }
}

pub open spec fn as_app(candidate: Result<AppCandidateView, DropRejection>) -> Result<
    DroppedCandidateView,
    DropRejection,
> {
    match candidate {
        Ok(c) => Ok(DroppedCandidateView::App(c)),
        Err(r) => Err(r),
    }
}

/// What a dropped file becomes. The caller passes what the outside world said about it:
/// `resolved` is where a shortcut points (`None` when it cannot be read), `inspected` what
/// inspecting the executable gave (the file itself, or a shortcut's target), `content` the
/// text of an internet shortcut.
pub open spec fn dropped_candidate(
    path: Seq<char>,
    resolved: Option<ShortcutTargetView>,
    inspected: Result<ExeInfoView, AppError>,
    content: Option<Seq<char>>,
) -> Result<DroppedCandidateView, DropRejection> {
    match drop_kind_of(path) {
        DropKind::Executable => as_app(
            candidate_of(path, None, None, None, CandidateSource::Dropped, inspected),
        ),
        DropKind::Shortcut => match resolved {
            None => Err(DropRejection::UnsupportedShortcut),
            Some(target) => as_app(shortcut_candidate(path, target, CandidateSource::Dropped, inspected)),
        },
        DropKind::InternetShortcut => match url_candidate_of(path, content) {
            Ok(url) => Ok(DroppedCandidateView::Url(url)),
            Err(r) => Err(r),
        },
        DropKind::Unsupported => Err(DropRejection::UnsupportedFile),
    }
}

pub fn classify_dropped_path(
    path: &str,
    resolved: Option<ShortcutTarget>,
    inspected: &Result<ExeInfo, AppError>,
    content: Option<String>,
) -> (dropped: Result<DroppedCandidate, DropRejection>)
    ensures
        match dropped {
            Ok(c) => dropped_candidate(path@, resolved.deep_view(), inspection(*inspected), content.deep_view())
                == Ok::<DroppedCandidateView, DropRejection>(c@),
            Err(r) => dropped_candidate(path@, resolved.deep_view(), inspection(*inspected), content.deep_view())
                == Err::<DroppedCandidateView, DropRejection>(r),
        },
{
    match drop_kind(path) {
        DropKind::Executable => match app_candidate(path, None, None, None, CandidateSource::Dropped, inspected) {
            Ok(c) => Ok(DroppedCandidate::App(c)),
            Err(r) => Err(r),
        },
        DropKind::Shortcut => match resolved {
            None => Err(DropRejection::UnsupportedShortcut),
            Some(target) => match app_from_shortcut(path, target, CandidateSource::Dropped, inspected) {
                Ok(c) => Ok(DroppedCandidate::App(c)),
                Err(r) => Err(r),
            },
        },
        DropKind::InternetShortcut => match url_from_internet_shortcut(path, content) {
            Ok(url) => Ok(DroppedCandidate::Url(url)),
            Err(r) => Err(r),
        },
        DropKind::Unsupported => Err(DropRejection::UnsupportedFile),
    }
}

/// The list the picker shows: without repeats, ordered by name.
pub fn finalize(candidates: Vec<AppCandidate>) -> (list: Vec<AppCandidate>)
    ensures
        sorted_by_name(list.deep_view()),
        same_per_name(list.deep_view(), deduped(candidates.deep_view())),
{
    let mut list = dedupe_candidates(candidates);
    sort_by_name(&mut list);
    list
}

/// Whether a resolved Start Menu or desktop shortcut is offered: uninstallers and programs of
/// the Windows folder are not.
pub open spec fn installed_shortcut_kept(
    shortcut: Seq<char>,
    target: ShortcutTargetView,
    windows_dir: Option<Seq<char>>,
) -> bool {
    !uninstaller_name(or_empty(path_file_stem(shortcut))) && !uninstaller_exe(target.target_path)
        && !under_dir(target.target_path, windows_dir)
}

pub fn keeps_installed_shortcut(shortcut: &str, target: &ShortcutTarget, windows_dir: Option<&str>) -> (kept:
    bool)
    ensures
        kept == installed_shortcut_kept(shortcut@, target@, windows_dir.deep_view()),
{
    !is_uninstaller_name(file_stem(shortcut).as_str()) && !is_uninstaller_exe(
        target.target_path.as_str(),
    ) && !is_under_dir(target.target_path.as_str(), windows_dir)
}

/// Whether a process is offered as an open app: it has a visible window, is not AutoStart
/// itself, has a known executable and does not run from the Windows folder.
pub open spec fn open_sample_kept(
    sample: ProcessSample,
    visible: Set<u32>,
    own_pid: u32,
    windows_dir: Option<Seq<char>>,
) -> bool {
    sample.pid != own_pid && visible.contains(sample.pid) && sample.exe_path is Some && !under_dir(
        sample.exe_path->0@,
        windows_dir,
    )
}

pub fn keeps_open_sample(
    sample: &ProcessSample,
    visible: &HashSet<u32>,
    own_pid: u32,
    windows_dir: Option<&str>,
) -> (kept: bool)
    ensures
        kept == open_sample_kept(*sample, visible@, own_pid, windows_dir.deep_view()),
{
    if sample.pid == own_pid || !visible.contains(&sample.pid) {
        return false;
    }
    match &sample.exe_path {
        Some(exe_path) => !is_under_dir(exe_path.as_str(), windows_dir),
        None => false,
    }
}

/// The candidate for an open app: named like its executable, with the name it runs under.
/// `inspected` is what inspecting its executable gave.
pub open spec fn open_candidate_of(sample: ProcessSample, inspected: Result<ExeInfoView, AppError>) -> Option<
    AppCandidateView,
> {
    match candidate_of(sample.exe_path->0@, None, None, None, CandidateSource::Open, inspected) {
        Ok(c) => Some(AppCandidateView { process_name: sample.name@, ..c }),
        Err(_) => None,
    }
}

pub fn open_candidate(sample: &ProcessSample, inspected: &Result<ExeInfo, AppError>) -> (candidate:
    Option<AppCandidate>)
    requires
        sample.exe_path is Some,
    ensures
        candidate.deep_view() == open_candidate_of(*sample, inspection(*inspected)),
{
    let exe_path = match &sample.exe_path {
        Some(path) => path.as_str(),
        None => "",
    };
    match app_candidate(exe_path, None, None, None, CandidateSource::Open, inspected) {
        Ok(c) => {
            let mut c = c;
            c.process_name = sample.name.clone();
            Some(c)
        },
        Err(_) => None,
    }
}

/// A shortcut found in the Start Menu or on the desktop, with what the outside world said of
/// it: where it points (`None` when it cannot be read) and what inspecting its target gave.
pub struct FoundShortcut {
    pub path: String,
    pub target: Option<ShortcutTarget>,
    pub inspected: Result<ExeInfo, AppError>,
}

pub struct FoundShortcutView {
    pub path: Seq<char>,
    pub target: Option<ShortcutTargetView>,
    pub inspected: Result<ExeInfoView, AppError>,
}

impl View for FoundShortcut {
    type V = FoundShortcutView;

    open spec fn view(&self) -> FoundShortcutView {
        FoundShortcutView {
            path: self.path@,
            target: self.target.deep_view(),
            inspected: inspection(self.inspected),
        }
    }
}

impl DeepView for FoundShortcut {
    type V = FoundShortcutView;

    open spec fn deep_view(&self) -> FoundShortcutView {
        self@
    }
}

/// The candidates the shortcuts yield, in order, before repeats are merged.
pub open spec fn installed_from(found: Seq<FoundShortcutView>, windows_dir: Option<Seq<char>>) -> Seq<
    AppCandidateView,
>
    decreases found.len(),
{
    if found.len() == 0 {
        Seq::empty()
    } else {
        let rest = installed_from(found.drop_last(), windows_dir);
        let f = found.last();
        match f.target {
            Some(target) => if installed_shortcut_kept(f.path, target, windows_dir) {
                match shortcut_candidate(f.path, target, CandidateSource::Installed, f.inspected) {
                    Ok(c) => rest.push(c),
                    Err(_) => rest,
                }
            } else {
                rest
            },
            None => rest,
        }
    }
}

fn clone_target(target: &ShortcutTarget) -> (copy: ShortcutTarget)
    ensures
        copy@ == target@,
{
    ShortcutTarget {
        target_path: target.target_path.clone(),
        args: crate::models::clone_opt_string(&target.args),
        working_dir: crate::models::clone_opt_string(&target.working_dir),
    }
}

/// The installed apps: shortcuts that resolve to an executable, without uninstallers,
/// programs of the Windows folder and repeats, ordered by name.
pub fn installed_candidates(found: &[FoundShortcut], windows_dir: Option<&str>) -> (list: Vec<
    AppCandidate,
>)
    ensures
        sorted_by_name(list.deep_view()),
        same_per_name(list.deep_view(), deduped(installed_from(found.deep_view(), windows_dir.deep_view()))),
{
    let ghost all = found.deep_view();
    let mut collected: Vec<AppCandidate> = Vec::new();
    let mut i: usize = 0;
    while i < found.len()
        invariant
            all == found.deep_view(),
            i <= all.len(),
            collected.deep_view() == installed_from(all.take(i as int), windows_dir.deep_view()),
        decreases all.len() - i,
    {
        assert(all.take(i + 1).drop_last() =~= all.take(i as int));
        assert(all[i as int] == found@[i as int]@);
        let f = &found[i];
        if let Some(target) = &f.target {
            if keeps_installed_shortcut(f.path.as_str(), target, windows_dir) {
                let copy = clone_target(target);
                if let Ok(c) = app_from_shortcut(f.path.as_str(), copy, CandidateSource::Installed, &f.inspected) {
                    let ghost before = collected.deep_view();
                    collected.push(c);
                    assert(collected.deep_view() =~= before.push(c@));
                }
            }
        }
        i = i + 1;
    }
    assert(all.take(i as int) =~= all);
    finalize(collected)
}

/// The candidates the processes yield, in order, before repeats are merged.
pub open spec fn open_from(
    samples: Seq<ProcessSample>,
    inspected: Seq<Result<ExeInfoView, AppError>>,
    visible: Set<u32>,
    own_pid: u32,
    windows_dir: Option<Seq<char>>,
) -> Seq<AppCandidateView>
    decreases samples.len(),
{
    if samples.len() == 0 {
        Seq::empty()
    } else {
        let n = samples.len() - 1;
        let rest = open_from(samples.drop_last(), inspected, visible, own_pid, windows_dir);
        if open_sample_kept(samples[n], visible, own_pid, windows_dir) {
            match open_candidate_of(samples[n], inspected[n]) {
                Some(c) => rest.push(c),
                None => rest,
            }
        } else {
            rest
        }
    }
}

pub open spec fn inspections(inspected: Seq<Result<ExeInfo, AppError>>) -> Seq<Result<ExeInfoView, AppError>> {
    inspected.map_values(|r: Result<ExeInfo, AppError>| inspection(r))
}

/// The apps with a visible window: `inspected[i]` is what inspecting the executable of
/// `samples[i]` gave, and is read only for processes that are offered.
pub fn open_candidates(
    samples: &[ProcessSample],
    inspected: &[Result<ExeInfo, AppError>],
    visible: &HashSet<u32>,
    own_pid: u32,
    windows_dir: Option<&str>,
) -> (list: Vec<AppCandidate>)
    requires
        inspected@.len() == samples@.len(),
    ensures
        sorted_by_name(list.deep_view()),
        same_per_name(
            list.deep_view(),
            deduped(open_from(samples@, inspections(inspected@), visible@, own_pid, windows_dir.deep_view())),
        ),
{
    let ghost results = inspections(inspected@);
    let mut collected: Vec<AppCandidate> = Vec::new();
    let mut i: usize = 0;
    while i < samples.len()
        invariant
            results == inspections(inspected@),
            inspected@.len() == samples@.len(),
            i <= samples@.len(),
            collected.deep_view() == open_from(
                samples@.take(i as int),
                results,
                visible@,
                own_pid,
                windows_dir.deep_view(),
            ),
        decreases samples@.len() - i,
    {
        assert(samples@.take(i + 1).drop_last() =~= samples@.take(i as int));
        assert(samples@.take(i + 1)[i as int] == samples@[i as int]);
        assert(results[i as int] == inspection(inspected@[i as int]));
        if keeps_open_sample(&samples[i], visible, own_pid, windows_dir) {
            if let Some(c) = open_candidate(&samples[i], &inspected[i]) {
                let ghost before = collected.deep_view();
                collected.push(c);
                assert(collected.deep_view() =~= before.push(c@));
            }
        }
        i = i + 1;
    }
    assert(samples@.take(i as int) =~= samples@);
    finalize(collected)
}

/// What was found for one dropped path: a shortcut's target, the executable's inspection and
/// an internet shortcut's text, as far as the path's kind needs them.
pub struct DroppedFile {
    pub path: String,
    pub resolved: Option<ShortcutTarget>,
    pub inspected: Result<ExeInfo, AppError>,
    pub content: Option<String>,
}

/// What one dropped path becomes.
pub open spec fn drop_outcome(file: DroppedFile) -> Result<DroppedCandidateView, DropRejection> {
    dropped_candidate(file.path@, file.resolved.deep_view(), inspection(file.inspected), file.content.deep_view())
}

/// The candidates of the paths that were accepted, in drop order.
pub open spec fn accepted_drops(files: Seq<DroppedFile>) -> Seq<DroppedCandidateView>
    decreases files.len(),
{
    if files.len() == 0 {
        Seq::empty()
    } else {
        let rest = accepted_drops(files.drop_last());
        match drop_outcome(files.last()) {
            Ok(candidate) => rest.push(candidate),
            Err(_) => rest,
        }
    }
}

/// The paths that were refused with their reasons, in drop order.
pub open spec fn refused_drops(files: Seq<DroppedFile>) -> Seq<(Seq<char>, DropRejection)>
    decreases files.len(),
{
    if files.len() == 0 {
        Seq::empty()
    } else {
        let rest = refused_drops(files.drop_last());
        match drop_outcome(files.last()) {
            Ok(_) => rest,
            Err(reason) => rest.push((files.last().path@, reason)),
        }
    }
}

/// One result per dropped path, in drop order: its candidate, or the path with the reason it
/// was refused.
pub fn resolve_drops(files: Vec<DroppedFile>) -> (resolution: DropResolution)
    ensures
        resolution.candidates@.map_values(|c: DroppedCandidate| c@) == accepted_drops(files@),
        resolution.rejected@.map_values(|r: RejectedDrop| (r.path@, r.reason)) == refused_drops(files@),
{
    let ghost all = files@;
    let mut rest = files;
    let mut candidates: Vec<DroppedCandidate> = Vec::new();
    let mut rejected: Vec<RejectedDrop> = Vec::new();
    let ghost mut done: int = 0;
    while rest.len() > 0
        invariant
            0 <= done <= all.len(),
            rest@ == all.skip(done),
            candidates@.map_values(|c: DroppedCandidate| c@) == accepted_drops(all.take(done)),
            rejected@.map_values(|r: RejectedDrop| (r.path@, r.reason)) == refused_drops(all.take(done)),
        decreases rest@.len(),
    {
        let file = rest.remove(0);
        assert(file == all[done]);
        assert(all.take(done + 1).drop_last() =~= all.take(done));
        assert(all.take(done + 1).last() == all[done]);
        let DroppedFile { path, resolved, inspected, content } = file;
        match classify_dropped_path(path.as_str(), resolved, &inspected, content) {
            Ok(candidate) => {
                let ghost before = candidates@;
                candidates.push(candidate);
                assert(candidates@.map_values(|c: DroppedCandidate| c@) =~= before.map_values(
                    |c: DroppedCandidate| c@,
                ).push(candidate@));
            },
            Err(reason) => {
                let ghost before = rejected@;
                rejected.push(RejectedDrop { path, reason });
                assert(rejected@.map_values(|r: RejectedDrop| (r.path@, r.reason)) =~= before.map_values(
                    |r: RejectedDrop| (r.path@, r.reason),
                ).push((all[done].path@, reason)));
            },
        }
        proof {
            assert(all.skip(done + 1) =~= all.skip(done).drop_first());
            done = done + 1;
        }
    }
    assert(all.take(done) =~= all);
    DropResolution { candidates, rejected }
}

} // verus!
