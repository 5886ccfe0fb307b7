//! The list of past sessions: newest first, a bounded number of flights and the latest test.
use vstd::prelude::*;

use crate::models::{SessionLog, SessionLogView};

verus! {

pub const MAX_REAL_SESSIONS: usize = 20;

/// The number of real (not test) sessions.
pub open spec fn real_count(history: Seq<SessionLogView>) -> nat
    decreases history.len(),
{
    if history.len() == 0 {
        0
    } else {
        real_count(history.drop_last()) + if history.last().is_test {
            0nat
        } else {
            1nat
        }
    }
}

/// The number of test sessions.
pub open spec fn test_count(history: Seq<SessionLogView>) -> nat
    decreases history.len(),
{
    if history.len() == 0 {
        0
    } else {
        test_count(history.drop_last()) + if history.last().is_test {
            1nat
        } else {
            0nat
        }
    }
}

/// The sessions that are not tests, in order.
pub open spec fn without_tests(history: Seq<SessionLogView>) -> Seq<SessionLogView>
    decreases history.len(),
{
    if history.len() == 0 {
        Seq::empty()
    } else {
        let rest = without_tests(history.drop_last());
        if history.last().is_test {
            rest
        } else {
            rest.push(history.last())
        }
    }
}

/// Every test, and the first `MAX_REAL_SESSIONS` real sessions, in order.
pub open spec fn retained(history: Seq<SessionLogView>) -> Seq<SessionLogView>
    decreases history.len(),
{
    if history.len() == 0 {
        Seq::empty()
    } else {
        let rest = retained(history.drop_last());
        if history.last().is_test || real_count(history.drop_last()) < MAX_REAL_SESSIONS {
            rest.push(history.last())
        } else {
            rest
        }
    }
}

/// The history after recording `log`: a new test replaces the previous test; the new
/// session goes first; real sessions beyond the limit drop off the end.
pub open spec fn recorded(history: Seq<SessionLogView>, log: SessionLogView) -> Seq<SessionLogView> {
    let kept = if log.is_test {
        without_tests(history)
    } else {
        history
    };
    retained(seq![log] + kept)
}

/// Newest first. Only the latest test is kept, so repeated tests never push flights out.
pub fn record(history: &mut Vec<SessionLog>, log: SessionLog)
    ensures
        final(history).deep_view() == recorded(old(history).deep_view(), log@),
{
    let ghost h = history.deep_view();
    let ghost l = log@;
    let replacing_test = log.is_test;
    let mut older: Vec<SessionLog> = Vec::new();
    std::mem::swap(&mut older, history);
    assert(older.deep_view() == h);
    let mut result: Vec<SessionLog> = Vec::new();
    let mut reals: usize = if log.is_test {
        0
    } else {
        1
    };
    result.push(log);
    let ghost first = seq![l];
    assert(first.drop_last() =~= Seq::<SessionLogView>::empty());
    assert(retained(Seq::<SessionLogView>::empty()) == Seq::<SessionLogView>::empty());
    assert(real_count(Seq::<SessionLogView>::empty()) == 0);
    assert(result.deep_view() =~= retained(first));
    let mut j: usize = 0;
    while j < older.len()
        invariant
            h == older.deep_view(),
            l.is_test == replacing_test,
            j <= h.len(),
            reals <= MAX_REAL_SESSIONS,
            ({
                let prefix = seq![l] + if replacing_test {
                    without_tests(h.take(j as int))
                } else {
                    h.take(j as int)
                };
                &&& result.deep_view() == retained(prefix)
                &&& reals == if real_count(prefix) < MAX_REAL_SESSIONS {
                    real_count(prefix)
                } else {
                    MAX_REAL_SESSIONS as nat
                }
            }),
        decreases h.len() - j,
    {
        let ghost prefix = seq![l] + if replacing_test {
            without_tests(h.take(j as int))
        } else {
            h.take(j as int)
        };
        assert(h.take(j + 1).drop_last() =~= h.take(j as int));
        assert(h[j as int] == older@[j as int]@);
        let entry_is_test = older[j].is_test;
        if !(replacing_test && entry_is_test) {
            let ghost next = prefix.push(h[j as int]);
            assert(next.drop_last() =~= prefix);
            assert((seq![l] + if replacing_test {
                without_tests(h.take(j + 1))
            } else {
                h.take(j + 1)
            }) =~= next);
            if entry_is_test || reals < MAX_REAL_SESSIONS {
                let ghost before = result.deep_view();
                result.push(older[j].clone());
                assert(result.deep_view() =~= before.push(h[j as int]));
            }
            if !entry_is_test && reals < MAX_REAL_SESSIONS {
                reals = reals + 1;
            }
        } else {
            assert((seq![l] + without_tests(h.take(j + 1))) =~= prefix);
        }
        j = j + 1;
    }
    assert(h.take(j as int) =~= h);
    *history = result;
}

proof fn lemma_retained_counts(history: Seq<SessionLogView>)
    ensures
        real_count(retained(history)) <= MAX_REAL_SESSIONS,
        real_count(retained(history)) <= real_count(history),
        test_count(retained(history)) == test_count(history),
        history.len() > 0 ==> retained(history).len() > 0 && retained(history)[0] == history[0],
    decreases history.len(),
{
    if history.len() > 0 {
        let rest = history.drop_last();
        lemma_retained_counts(rest);
        let kept = retained(rest);
        if history.last().is_test || real_count(rest) < MAX_REAL_SESSIONS {
            assert(retained(history).drop_last() =~= kept);
            if history.len() > 1 {
                assert(rest[0] == history[0]);
                assert(retained(history)[0] == kept[0]);
            }
        }
        if history.len() == 1 {
            assert(rest.len() == 0);
            assert(real_count(rest) == 0);
            assert(retained(history) =~= seq![history[0]]);
        }
    }
}

proof fn lemma_without_tests_has_none(history: Seq<SessionLogView>)
    ensures
        test_count(without_tests(history)) == 0,
    decreases history.len(),
{
    if history.len() > 0 {
        lemma_without_tests_has_none(history.drop_last());
        let rest = without_tests(history.drop_last());
        if !history.last().is_test {
            assert(rest.push(history.last()).drop_last() =~= rest);
        }
    }
}

proof fn lemma_count_prepend(log: SessionLogView, history: Seq<SessionLogView>)
    ensures
        test_count(seq![log] + history) == test_count(history) + if log.is_test {
            1nat
        } else {
            0nat
        },
    decreases history.len(),
{
    if history.len() == 0 {
        assert((seq![log] + history).drop_last() =~= Seq::<SessionLogView>::empty());
        assert(test_count(Seq::<SessionLogView>::empty()) == 0);
        assert((seq![log] + history).last() == log);
    } else {
        lemma_count_prepend(log, history.drop_last());
        assert((seq![log] + history).drop_last() =~= seq![log] + history.drop_last());
        assert((seq![log] + history).last() == history.last());
    }
}

/// The history keeps its shape: the recorded session comes first, at most
/// `MAX_REAL_SESSIONS` real sessions remain, and a recorded test leaves exactly one test
/// while a recorded flight keeps every test there was.
pub proof fn lemma_record_keeps_history_bounded(history: Seq<SessionLogView>, log: SessionLogView)
    ensures
        recorded(history, log).len() > 0,
        recorded(history, log)[0] == log,
        real_count(recorded(history, log)) <= MAX_REAL_SESSIONS,
        log.is_test ==> test_count(recorded(history, log)) == 1,
        !log.is_test ==> test_count(recorded(history, log)) == test_count(history),
{
    let kept = if log.is_test {
        without_tests(history)
    } else {
        history
    };
    let candidates = seq![log] + kept;
    assert(candidates[0] == log);
    lemma_retained_counts(candidates);
    lemma_count_prepend(log, kept);
    if log.is_test {
        lemma_without_tests_has_none(history);
    }
}

/// The first `MAX_REAL_SESSIONS` of a list of sessions.
pub open spec fn newest_kept(sessions: Seq<SessionLogView>) -> Seq<SessionLogView> {
    if sessions.len() <= MAX_REAL_SESSIONS {
        sessions
    } else {
        sessions.take(MAX_REAL_SESSIONS as int)
    }
}

proof fn lemma_real_count_is_len(history: Seq<SessionLogView>)
    ensures
        real_count(history) == without_tests(history).len(),
    decreases history.len(),
{
    if history.len() > 0 {
        lemma_real_count_is_len(history.drop_last());
    }
}

proof fn lemma_without_tests_concat(a: Seq<SessionLogView>, b: Seq<SessionLogView>)
    ensures
        without_tests(a + b) == without_tests(a) + without_tests(b),
    decreases b.len(),
{
    if b.len() == 0 {
        assert(a + b =~= a);
        assert(without_tests(a) + without_tests(b) =~= without_tests(a));
    } else {
        lemma_without_tests_concat(a, b.drop_last());
        assert((a + b).drop_last() =~= a + b.drop_last());
        assert((a + b).last() == b.last());
        if !b.last().is_test {
            assert(without_tests(a) + without_tests(b.drop_last()).push(b.last()) =~= (without_tests(a)
                + without_tests(b.drop_last())).push(b.last()));
        }
    }
}

proof fn lemma_without_tests_twice(history: Seq<SessionLogView>)
    ensures
        without_tests(without_tests(history)) == without_tests(history),
    decreases history.len(),
{
    if history.len() > 0 {
        lemma_without_tests_twice(history.drop_last());
        let rest = without_tests(history.drop_last());
        if !history.last().is_test {
            assert(rest.push(history.last()).drop_last() =~= rest);
        }
    }
}

proof fn lemma_retained_reals(sessions: Seq<SessionLogView>)
    ensures
        without_tests(retained(sessions)) == newest_kept(without_tests(sessions)),
    decreases sessions.len(),
{
    if sessions.len() > 0 {
        let rest = sessions.drop_last();
        let last = sessions.last();
        lemma_retained_reals(rest);
        lemma_real_count_is_len(rest);
        let kept = retained(rest);
        let reals = without_tests(rest);
        if last.is_test {
            assert(kept.push(last).drop_last() =~= kept);
        } else if real_count(rest) < MAX_REAL_SESSIONS {
            assert(kept.push(last).drop_last() =~= kept);
            assert(newest_kept(reals) == reals);
            assert(newest_kept(reals.push(last)) =~= reals.push(last));
        } else {
            assert(newest_kept(reals.push(last)) =~= newest_kept(reals));
        }
    }
}

/// The real sessions kept after recording are the newest ones, in order: the first
/// `MAX_REAL_SESSIONS` real sessions of the new one followed by the old history.
pub proof fn lemma_record_keeps_the_newest_real_sessions(history: Seq<SessionLogView>, log: SessionLogView)
    ensures
        without_tests(recorded(history, log)) == newest_kept(without_tests(seq![log] + history)),
{
    let kept = if log.is_test {
        without_tests(history)
    } else {
        history
    };
    lemma_retained_reals(seq![log] + kept);
    if log.is_test {
        lemma_without_tests_concat(seq![log], without_tests(history));
        lemma_without_tests_concat(seq![log], history);
        lemma_without_tests_twice(history);
    }
}

} // verus!
