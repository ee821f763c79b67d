//! The record of when sessions were last active, and the sweep that finds the idle ones.
//!
//! Time is counted in nanoseconds from an origin of the caller's choice.

use vstd::hash_map::StringHashMap;
use vstd::prelude::*;
use vstd::string::*;

use crate::text;

verus! {

/// Per-session times of last activity. Every request that carries a session id renews that
/// session's entry; a sweep closes the sessions whose entry is too old.
pub struct ActivityTracker {
    inner: StringHashMap<u64>,
}

impl View for ActivityTracker {
    type V = Map<Seq<char>, u64>;

    closed spec fn view(&self) -> Map<Seq<char>, u64> {
        self.inner@
    }
}

/// Whether more than `timeout` has passed from `last` to `now`.
pub open spec fn is_idle(last: u64, now: u64, timeout: u64) -> bool {
    now - last > timeout
}

/// The record once a sweep at `now` has looked at it: entries of sessions that are no longer
/// live are gone, and a live session without an entry gets one for `now`, and with it a full
/// idle window.
pub open spec fn swept(
    activity: Map<Seq<char>, u64>,
    live: Seq<Seq<char>>,
    now: u64,
) -> Map<Seq<char>, u64> {
    Map::new(
        |id: Seq<char>| live.contains(id),
        |id: Seq<char>|
            if activity.contains_key(id) {
                activity[id]
            } else {
                now
            },
    )
}

/// The sessions of `live` that a sweep at `now` closes, in that order.
pub open spec fn idle_ones(
    activity: Map<Seq<char>, u64>,
    live: Seq<Seq<char>>,
    now: u64,
    timeout: u64,
) -> Seq<Seq<char>>
    decreases live.len(),
{
    if live.len() == 0 {
        Seq::empty()
    } else {
        let before = idle_ones(activity, live.drop_last(), now, timeout);
        let id = live.last();
        if activity.contains_key(id) && is_idle(activity[id], now, timeout) {
            before.push(id)
        } else {
            before
        }
    }
}

/// One more element is in a sequence with one more element.
proof fn lemma_contains_push(s: Seq<Seq<char>>, last: Seq<char>, id: Seq<char>)
    ensures
        s.push(last).contains(id) <==> s.contains(id) || last == id,
{
    let longer = s.push(last);
    if longer.contains(id) && last != id {
        let k = choose|k: int| 0 <= k < longer.len() && longer[k] == id;
        assert(s[k] == id);
    }
    if s.contains(id) {
        let k = choose|k: int| 0 <= k < s.len() && s[k] == id;
        assert(longer[k] == id);
    }
    assert(longer[s.len() as int] == last);
}

impl ActivityTracker {
    /// A record without entries.
    pub fn new() -> (tracker: Self)
        ensures
            tracker@ == Map::<Seq<char>, u64>::empty(),
    {
        ActivityTracker { inner: StringHashMap::new() }
    }

    /// Records activity of the session `id` at `now`.
    pub fn touch(&mut self, id: String, now: u64)
        ensures
            final(self)@ == old(self)@.insert(id@, now),
    {
        self.inner.insert(id, now);
    }

    /// Forgets the session `id`, which was closed.
    pub fn forget(&mut self, id: &String)
        ensures
            final(self)@ == old(self)@.remove(id@),
    {
        self.inner.remove(id.as_str());
    }

    /// When the session `id` was last active, if that is on record.
    pub fn last_activity(&self, id: &String) -> (last: Option<u64>)
        ensures
            last == if self@.contains_key(id@) {
                Some(self@[id@])
            } else {
                None
            },
    {
        match self.inner.get(id.as_str()) {
            Some(last) => Some(*last),
            None => None,
        }
    }

    /// How many sessions have an entry.
    pub fn len(&self) -> (n: usize)
        ensures
            n == self@.dom().len(),
    {
        self.inner.len()
    }

    /// Looks at the sessions in `live` at `now`, and tells which of them have been idle for more
    /// than `timeout` and are to be closed.
    pub fn sweep(&mut self, live: &Vec<String>, now: u64, timeout: u64) -> (to_close: Vec<String>)
        ensures
            final(self)@ == swept(old(self)@, text::texts_of(live@), now),
            text::texts_of(to_close@) == idle_ones(
                old(self)@,
                text::texts_of(live@),
                now,
                timeout,
            ),
    {
        let ghost start = self@;
        let ghost ids = text::texts_of(live@);
        let mut kept: StringHashMap<u64> = StringHashMap::new();
        let mut to_close: Vec<String> = Vec::new();
        let mut i: usize = 0;
        proof {
            assert(ids.take(0) =~= Seq::<Seq<char>>::empty());
            assert(text::texts_of(to_close@) =~= Seq::<Seq<char>>::empty());
        }
        while i < live.len()
            invariant
                i <= live@.len(),
                ids == text::texts_of(live@),
                self.inner@ == start,
                forall|id: Seq<char>| #[trigger]
                    kept@.contains_key(id) <==> ids.take(i as int).contains(id),
                forall|id: Seq<char>| #[trigger]
                    kept@.contains_key(id) ==> kept@[id] == if start.contains_key(id) {
                        start[id]
                    } else {
                        now
                    },
                text::texts_of(to_close@) == idle_ones(start, ids.take(i as int), now, timeout),
            decreases live@.len() - i,
        {
            let id = &live[i];
            let ghost closing = to_close@;
            proof {
                assert(ids[i as int] == id@);
                assert(ids.take(i + 1) =~= ids.take(i as int).push(id@));
                assert(ids.take(i + 1).drop_last() =~= ids.take(i as int));
                assert forall|other: Seq<char>| #[trigger] ids.take(i + 1).contains(other) <==> (
                ids.take(i as int).contains(other) || id@ == other) by {
                    lemma_contains_push(ids.take(i as int), id@, other);
                }
            }
            let last: u64 = match self.inner.get(id.as_str()) {
                Some(last) => *last,
                None => now,
            };
            kept.insert(id.clone(), last);
            if now.saturating_sub(last) > timeout {
                to_close.push(id.clone());
                assert(text::texts_of(to_close@) =~= text::texts_of(closing).push(id@));
            }
            i = i + 1;
        }
        proof {
            assert(ids.take(ids.len() as int) =~= ids);
            assert(kept@ =~= swept(start, ids, now));
        }
        self.inner = kept;
        to_close
    }
}

/// A session that is live but not yet on record is not closed: it gets a full idle window.
pub proof fn unknown_sessions_are_spared(
    activity: Map<Seq<char>, u64>,
    live: Seq<Seq<char>>,
    now: u64,
    timeout: u64,
    id: Seq<char>,
)
    requires
        live.contains(id),
        !activity.contains_key(id),
    ensures
        !idle_ones(activity, live, now, timeout).contains(id),
        swept(activity, live, now).contains_key(id),
        swept(activity, live, now)[id] == now,
{
    idle_ones_are_idle(activity, live, now, timeout, id);
}

/// A sweep closes a session if and only if it is live, on record, and was last active more than
/// the timeout ago.
pub proof fn idle_ones_are_idle(
    activity: Map<Seq<char>, u64>,
    live: Seq<Seq<char>>,
    now: u64,
    timeout: u64,
    id: Seq<char>,
)
    ensures
        idle_ones(activity, live, now, timeout).contains(id) <==> (live.contains(id)
            && activity.contains_key(id) && is_idle(activity[id], now, timeout)),
    decreases live.len(),
{
    if live.len() > 0 {
        let rest = live.drop_last();
        let before = idle_ones(activity, rest, now, timeout);
        idle_ones_are_idle(activity, rest, now, timeout, id);
        assert(live =~= rest.push(live.last()));
        lemma_contains_push(rest, live.last(), id);
        lemma_contains_push(before, live.last(), id);
    }
}

/// A session that was active within the timeout is not closed.
pub proof fn active_sessions_are_kept(
    activity: Map<Seq<char>, u64>,
    live: Seq<Seq<char>>,
    touched: u64,
    now: u64,
    timeout: u64,
    id: Seq<char>,
)
    requires
        now - touched <= timeout,
    ensures
        !idle_ones(activity.insert(id, touched), live, now, timeout).contains(id),
{
    idle_ones_are_idle(activity.insert(id, touched), live, now, timeout, id);
}

/// The record does not grow beyond the live sessions, whatever was in it before.
pub proof fn dead_sessions_are_dropped(
    activity: Map<Seq<char>, u64>,
    live: Seq<Seq<char>>,
    now: u64,
    id: Seq<char>,
)
    ensures
        swept(activity, live, now).contains_key(id) <==> live.contains(id),
{
}

/// A session that shows no more activity is closed by the second sweep that sees it more than
/// the timeout after the first one.
pub proof fn silent_sessions_are_closed(
    activity: Map<Seq<char>, u64>,
    live: Seq<Seq<char>>,
    first: u64,
    later_live: Seq<Seq<char>>,
    second: u64,
    timeout: u64,
    id: Seq<char>,
)
    requires
        live.contains(id),
        later_live.contains(id),
        activity.contains_key(id) ==> activity[id] <= first,
        second - first > timeout,
    ensures
        idle_ones(swept(activity, live, first), later_live, second, timeout).contains(id),
{
    idle_ones_are_idle(swept(activity, live, first), later_live, second, timeout, id);
}

} // verus!
