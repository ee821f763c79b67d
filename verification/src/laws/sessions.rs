//! Which sessions a sweep closes, and what it keeps on record.

use vstd::prelude::*;

use crate::reaper;

verus! {

/// A sweep closes, in their order, the live sessions that are on record and were last active more
/// than the timeout ago, and no others.
pub proof fn sweeps_close_idle_sessions(
    activity: Map<Seq<char>, u64>,
    live: Seq<Seq<char>>,
    now: u64,
    timeout: u64,
)
    ensures
        reaper::idle_ones(activity, live, now, timeout) == live.filter(
            |id: Seq<char>| activity.contains_key(id) && activity[id] + timeout < now,
        ),
    decreases live.len(),
{
    reveal(Seq::filter);
    if live.len() > 0 {
        sweeps_close_idle_sessions(activity, live.drop_last(), now, timeout);
    }
}

/// After a sweep the live sessions are on record and no others: those that were on record at the
/// time they had, and the others as active at the time of the sweep.
pub proof fn sweeps_keep_live_sessions(
    activity: Map<Seq<char>, u64>,
    live: Seq<Seq<char>>,
    now: u64,
    id: Seq<char>,
)
    ensures
        reaper::swept(activity, live, now).contains_key(id) <==> live.contains(id),
        live.contains(id) && activity.contains_key(id) ==> reaper::swept(activity, live, now)[id]
            == activity[id],
        live.contains(id) && !activity.contains_key(id) ==> reaper::swept(activity, live, now)[id]
            == now,
{
}

/// A second sweep at the same time changes nothing: the record stays as it is, and the same
/// sessions are to be closed.
pub proof fn sweeps_settle(
    activity: Map<Seq<char>, u64>,
    live: Seq<Seq<char>>,
    now: u64,
    timeout: u64,
)
    ensures
        reaper::swept(reaper::swept(activity, live, now), live, now) == reaper::swept(
            activity,
            live,
            now,
        ),
        reaper::idle_ones(reaper::swept(activity, live, now), live, now, timeout)
            == reaper::idle_ones(activity, live, now, timeout),
{
    let once = reaper::swept(activity, live, now);
    assert(reaper::swept(once, live, now) =~= once);
    sweeps_close_idle_sessions(activity, live, now, timeout);
    sweeps_close_idle_sessions(once, live, now, timeout);
    lemma_same_filter(
        live,
        live,
        |id: Seq<char>| once.contains_key(id) && once[id] + timeout < now,
        |id: Seq<char>| activity.contains_key(id) && activity[id] + timeout < now,
    );
}

/// Two tests that agree on all of a sequence pick the same from it.
proof fn lemma_same_filter(
    all: Seq<Seq<char>>,
    some: Seq<Seq<char>>,
    p: spec_fn(Seq<char>) -> bool,
    q: spec_fn(Seq<char>) -> bool,
)
    requires
        forall|id: Seq<char>| #[trigger] all.contains(id) ==> p(id) == q(id),
        forall|i: int| 0 <= i < some.len() ==> all.contains(#[trigger] some[i]),
    ensures
        some.filter(p) == some.filter(q),
    decreases some.len(),
{
    reveal(Seq::filter);
    if some.len() > 0 {
        assert(all.contains(some[some.len() - 1]));
        assert forall|i: int| 0 <= i < some.drop_last().len() implies all.contains(
            #[trigger] some.drop_last()[i],
        ) by {
            assert(all.contains(some[i]));
        }
        lemma_same_filter(all, some.drop_last(), p, q);
    }
}

} // verus!
