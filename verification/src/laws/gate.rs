//! Who is let in, how often, and what a peer is told otherwise.

use vstd::prelude::*;

use crate::gate::{GateCtx, Verdict};
use crate::laws;
use crate::limiter::{LimiterView, PeerAddr, MICRO, TOKEN};

verus! {

/// The units of time and amount: a limiter whose buckets gain a millionth of a token per minute for
/// each unit of its rate gains a token in a minute for each million of these.
pub proof fn units_fit_together()
    ensures
        crate::gate::SECOND == 1_000_000_000,
        MICRO == 60 * crate::gate::SECOND,
        TOKEN == 1_000_000 * MICRO,
{
}

/// A bucket fills steadily: what it holds later is what it holds now and what flows in between, up
/// to its capacity.
pub proof fn buckets_fill_steadily(limiter: LimiterView, peer: PeerAddr, now: u64, later: u64)
    requires
        limiter.wf(),
        now <= later,
        limiter.buckets.contains_key(peer) ==> limiter.buckets[peer].last <= now,
    ensures
        limiter.level(peer, later) == laws::grep::least(
            limiter.capacity as int,
            limiter.level(peer, now) + (later - now) * limiter.refill,
        ),
{
    let r = limiter.refill as int;
    let d = (later - now) as int;
    assert(d * r >= 0) by (nonlinear_arith)
        requires
            d >= 0,
            r > 0,
    ;
    if limiter.buckets.contains_key(peer) {
        let last = limiter.buckets[peer].last as int;
        assert((later - last) * r == (now - last) * r + d * r) by (nonlinear_arith)
            requires
                d == later - now,
        ;
        assert((now - last) * r >= 0) by (nonlinear_arith)
            requires
                now >= last,
                r > 0,
        ;
    }
}

/// A bucket holds what the last request left in it and what has flowed in since, up to its
/// capacity, and the one of a peer not seen yet is full.
pub proof fn buckets_hold_what_was_left(limiter: LimiterView, peer: PeerAddr, now: u64)
    requires
        limiter.wf(),
    ensures
        !limiter.buckets.contains_key(peer) ==> limiter.level(peer, now) == limiter.capacity,
        limiter.buckets.contains_key(peer) && limiter.buckets[peer].last <= now ==> limiter.level(
            peer,
            now,
        ) == laws::grep::least(
            limiter.capacity as int,
            limiter.buckets[peer].tokens + (now - limiter.buckets[peer].last) * limiter.refill,
        ),
        limiter.buckets.contains_key(peer) && limiter.buckets[peer].last > now ==> limiter.level(
            peer,
            now,
        ) == limiter.buckets[peer].tokens,
{
    if limiter.buckets.contains_key(peer) && limiter.buckets[peer].last > now {
        let r = limiter.refill as int;
        assert(0 * r == 0) by (nonlinear_arith);
    }
}

/// A request that is let through takes one token out of the bucket of its peer, and one that is
/// not takes nothing. Either way other peers find what they would have found.
pub proof fn a_request_takes_one_token(
    limiter: LimiterView,
    peer: PeerAddr,
    other: PeerAddr,
    now: u64,
)
    requires
        limiter.wf(),
    ensures
        limiter.admits(peer, now) <==> limiter.level(peer, now) >= TOKEN,
        limiter.level(peer, now) >= TOKEN ==> limiter.consume(peer, now).level(peer, now)
            == limiter.level(peer, now) - TOKEN,
        limiter.level(peer, now) < TOKEN ==> limiter.consume(peer, now).level(peer, now)
            == limiter.level(peer, now),
        other != peer ==> limiter.consume(peer, now).level(other, now) == limiter.level(other, now),
        limiter.consume(peer, now).capacity == limiter.capacity,
        limiter.consume(peer, now).refill == limiter.refill,
        limiter.consume(peer, now).evict_threshold == limiter.evict_threshold,
{
    crate::limiter::lemma_own_level(limiter, peer, now);
    crate::limiter::lemma_tidied(limiter, now);
    if other != peer {
        crate::limiter::peers_are_independent(limiter, peer, other, now, now);
    }
}

/// Buckets go only where there are more of them than the threshold, and only those that have been
/// idle for twice the time it takes to fill one; then all of these go. The others stay as they are.
pub proof fn only_idle_buckets_go(limiter: LimiterView, now: u64, peer: PeerAddr, known: PeerAddr)
    requires
        limiter.wf(),
        known != peer,
        limiter.buckets.contains_key(known),
    ensures
        ({
            let crowded = limiter.buckets.dom().len() > limiter.evict_threshold;
            let last = limiter.buckets[known].last;
            let idle = if last <= now {
                now - last
            } else {
                0
            };
            let after = limiter.consume(peer, now);
            &&& after.buckets.contains_key(known) <==> !(crowded && idle * limiter.refill >= 2
                * limiter.capacity)
            &&& after.buckets.contains_key(known) ==> after.buckets[known]
                == limiter.buckets[known]
            &&& after.buckets.contains_key(peer)
        }),
{
}

/// A peer that is refused is told the least time after which it would find a token.
pub proof fn the_wait_is_the_least_that_helps(limiter: LimiterView, peer: PeerAddr, now: u64)
    requires
        limiter.wf(),
        limiter.level(peer, now) < TOKEN,
    ensures
        limiter.level(peer, now) + limiter.wait(peer, now) * limiter.refill >= TOKEN,
        limiter.level(peer, now) + (limiter.wait(peer, now) - 1) * limiter.refill < TOKEN,
        0 < limiter.wait(peer, now) <= TOKEN,
{
    crate::limiter::eviction_is_unobservable(limiter, peer, now, now);
    crate::limiter::lemma_ceil(TOKEN - limiter.level(peer, now), limiter.refill as int);
    let missing = TOKEN - limiter.level(peer, now);
    let r = limiter.refill as int;
    assert(limiter.wait(peer, now) == (missing + (r - 1)) / r);
}

/// A request for a new session passes if and only if there are fewer sessions open than the cap and
/// the bucket of its peer holds a token, however many sessions are open otherwise. At the cap it is
/// refused for that reason, and below it for its rate.
pub proof fn new_sessions_pass_by_cap_and_rate(
    ctx: GateCtx,
    peer: PeerAddr,
    in_use: usize,
    now: u64,
)
    requires
        ctx.wf(),
    ensures
        crate::gate::new_session_verdict(ctx, peer, in_use, now) == Verdict::Pass <==> (in_use
            < ctx.max_sessions && ctx.limiter@.level(peer, now) >= TOKEN),
        crate::gate::new_session_verdict(ctx, peer, in_use, now) == Verdict::SessionCap <==> in_use
            >= ctx.max_sessions,
        crate::gate::new_session_verdict(ctx, peer, in_use, now) is RateLimited <==> (in_use
            < ctx.max_sessions && ctx.limiter@.level(peer, now) < TOKEN),
{
    crate::limiter::lemma_own_level(ctx.limiter@, peer, now);
}

/// How many sessions are open below the cap makes no difference to the decision.
pub proof fn below_the_cap_sessions_do_not_matter(
    ctx: GateCtx,
    peer: PeerAddr,
    in_use: usize,
    other: usize,
    now: u64,
)
    requires
        ctx.wf(),
        in_use < ctx.max_sessions,
        other < ctx.max_sessions,
    ensures
        crate::gate::new_session_verdict(ctx, peer, in_use, now)
            == crate::gate::new_session_verdict(ctx, peer, other, now),
{
}

/// The seconds that a refused peer is told are the whole seconds of the time after which it would
/// find a token, and at least one.
pub proof fn the_seconds_told_are_those_to_wait(
    ctx: GateCtx,
    peer: PeerAddr,
    in_use: usize,
    now: u64,
)
    requires
        ctx.wf(),
    ensures
        crate::gate::new_session_verdict(ctx, peer, in_use, now) matches Verdict::RateLimited(secs)
            ==> {
            let wait = ctx.limiter@.wait(peer, now);
            &&& secs >= 1
            &&& secs > 1 ==> secs * 1_000_000_000 <= wait
            &&& wait < (secs + 1) * 1_000_000_000
        },
{
    new_sessions_pass_by_cap_and_rate(ctx, peer, in_use, now);
    if crate::gate::new_session_verdict(ctx, peer, in_use, now) is RateLimited {
        the_wait_is_the_least_that_helps(ctx.limiter@, peer, now);
    }
}

/// A request and what was decided on it.
pub struct Exchange {
    /// Whether it asks for a new session.
    pub is_new: bool,
    pub peer: PeerAddr,
    /// The number of sessions open when it came.
    pub in_use: usize,
    pub now: u64,
    pub verdict: Verdict,
}

/// Whether `log` is what went on while the state went through `states`.
pub open spec fn is_log(states: Seq<GateCtx>, log: Seq<Exchange>) -> bool {
    &&& states.len() == log.len() + 1
    &&& forall|i: int|
        0 <= i < log.len() ==> crate::gate::decides(
            states[i],
            states[i + 1],
            (#[trigger] log[i]).is_new,
            log[i].peer,
            log[i].in_use,
            log[i].now,
            log[i].verdict,
        )
}

/// The requests of `peer` for a new session that passed.
pub open spec fn let_in(log: Seq<Exchange>, peer: PeerAddr) -> nat {
    log.filter(|e: Exchange| e.is_new && e.peer == peer && e.verdict == Verdict::Pass).len()
}

/// Whether the requests come one after the other.
pub open spec fn is_in_order(log: Seq<Exchange>) -> bool {
    forall|i: int, j: int|
        0 <= i <= j < log.len() ==> (#[trigger] log[i]).now <= (#[trigger] log[j]).now
}

/// What was let in and what is left, against what was there and what came in.
proof fn lemma_balance(states: Seq<GateCtx>, log: Seq<Exchange>, peer: PeerAddr)
    requires
        is_log(states, log),
        states[0].wf(),
        is_in_order(log),
        log.len() > 0,
    ensures
        states.last().limiter@.wf(),
        states.last().limiter@.capacity == states[0].limiter@.capacity,
        states.last().limiter@.refill == states[0].limiter@.refill,
        let_in(log, peer) * TOKEN + states.last().limiter@.level(peer, log.last().now)
            <= states[0].limiter@.capacity + (log.last().now - log[0].now)
            * states[0].limiter@.refill,
    decreases log.len(),
{
    reveal(Seq::filter);
    let front = log.drop_last();
    let e = log.last();
    let n = front.len() as int;
    let state = states[n];
    let first = states[0].limiter@;
    let r = first.refill as int;
    assert(log[n] == e);
    assert(states.last() == states[n + 1]);
    if n > 0 {
        let some = states.drop_last();
        assert(is_log(some, front)) by {
            assert forall|i: int| 0 <= i < front.len() implies crate::gate::decides(
                some[i],
                some[i + 1],
                (#[trigger] front[i]).is_new,
                front[i].peer,
                front[i].in_use,
                front[i].now,
                front[i].verdict,
            ) by {
                assert(front[i] == log[i]);
            }
        }
        assert(is_in_order(front)) by {
            assert forall|i: int, j: int| 0 <= i <= j < front.len() implies (
            #[trigger] front[i]).now <= (#[trigger] front[j]).now by {
                assert(log[i].now <= log[j].now);
            }
        }
        lemma_balance(some, front, peer);
        assert(some.last() == state);
        assert(log[n - 1].now <= log[n].now);
        assert(log[0].now <= log[n - 1].now);
        let mid = front.last().now as int;
        let start = log[0].now as int;
        crate::limiter::lemma_growth(state.limiter@, peer, front.last().now, e.now);
        assert((mid - start) * r + (e.now - mid) * r == (e.now - start) * r) by (nonlinear_arith);
    } else {
        crate::limiter::levels_are_capped(state.limiter@, peer, e.now);
        assert((e.now - log[0].now) * r == 0) by (nonlinear_arith)
            requires
                e.now == log[0].now,
        ;
        assert(front =~= Seq::<Exchange>::empty());
    }
    if e.is_new {
        new_sessions_pass_by_cap_and_rate(state, e.peer, e.in_use, e.now);
        a_request_takes_one_token(state.limiter@, e.peer, peer, e.now);
        crate::limiter::levels_are_capped(state.limiter@, e.peer, e.now);
    }
    let before = let_in(front, peer) as int;
    assert((before + 1) * TOKEN == before * TOKEN + TOKEN) by (nonlinear_arith);
}

/// The rate holds at the door: over any requests that come one after the other, those of a peer for
/// a new session that pass are bounded by a full bucket and what flows into it in that time,
/// however many sessions are open and whatever other peers do.
pub proof fn passes_are_bounded(states: Seq<GateCtx>, log: Seq<Exchange>, peer: PeerAddr)
    requires
        is_log(states, log),
        states[0].wf(),
        is_in_order(log),
        log.len() > 0,
    ensures
        let_in(log, peer) * TOKEN <= states[0].limiter@.capacity + (log.last().now - log[0].now)
            * states[0].limiter@.refill,
{
    lemma_balance(states, log, peer);
}

/// All other traffic passes and costs nothing, and so does a request that is refused at the cap.
pub proof fn only_new_sessions_cost(
    before: GateCtx,
    after: GateCtx,
    is_new: bool,
    peer: PeerAddr,
    in_use: usize,
    now: u64,
    verdict: Verdict,
)
    requires
        crate::gate::decides(before, after, is_new, peer, in_use, now, verdict),
    ensures
        !is_new ==> verdict == Verdict::Pass && after.limiter@ == before.limiter@,
        is_new && in_use >= before.max_sessions ==> verdict == Verdict::SessionCap && after.limiter@
            == before.limiter@,
        is_new && in_use < before.max_sessions ==> after.limiter@ == before.limiter@.consume(
            peer,
            now,
        ),
        after.max_sessions == before.max_sessions,
{
}

/// A request asks for a new session if and only if it is a POST without a session id.
pub proof fn posts_without_a_session_are_new(is_post: bool, session: Option<&[u8]>)
    ensures
        crate::gate::is_initialize(is_post, session) <==> (is_post && session is None),
{
}

/// Whether a byte of a header is printable ASCII, or a tab.
pub open spec fn is_printable(b: u8) -> bool {
    b == 9 || 32 <= b <= 126
}

/// Whether `chars` are `bytes`, one character for each byte.
pub open spec fn spells(chars: Seq<char>, bytes: Seq<u8>) -> bool {
    chars.len() == bytes.len() && forall|i: int|
        0 <= i < chars.len() ==> #[trigger] chars[i] as int == bytes[i] as int
}

/// A request with a session id renews that session, and no other, where the id is text; one without
/// an id, or with an id that is no text, renews none.
pub proof fn sessions_are_renewed_by_their_requests(
    activity: Map<Seq<char>, u64>,
    session: Option<&[u8]>,
    now: u64,
    other: Seq<char>,
) -> (id: Seq<char>)
    ensures
        ({
            let after = crate::gate::activity_after(activity, session, now);
            let is_text = session is Some && forall|i: int|
                0 <= i < session->Some_0@.len() ==> is_printable(#[trigger] session->Some_0@[i]);
            &&& !is_text ==> after == activity
            &&& is_text ==> spells(id, session->Some_0@) && after.contains_key(id) && after[id]
                == now
            &&& is_text && other != id ==> (after.contains_key(other) <==> activity.contains_key(
                other,
            )) && (activity.contains_key(other) ==> after[other] == activity[other])
        }),
{
    match session {
        Some(value) => {
            let text = crate::gate::is_header_text(value@);
            assert(text <==> forall|i: int|
                0 <= i < value@.len() ==> is_printable(#[trigger] value@[i])) by {
                if forall|i: int| 0 <= i < value@.len() ==> is_printable(#[trigger] value@[i]) {
                    assert forall|i: int| 0 <= i < value@.len() implies crate::gate::is_visible(
                        #[trigger] value@[i],
                    ) by {
                        assert(is_printable(value@[i]));
                    }
                }
                if text {
                    assert forall|i: int| 0 <= i < value@.len() implies is_printable(
                        #[trigger] value@[i],
                    ) by {
                        assert(crate::gate::is_visible(value@[i]));
                    }
                }
            }
            if text {
                lemma_spelled(value@);
            }
            crate::gate::ascii_chars(value@)
        },
        None => Seq::empty(),
    }
}

/// Text in a header is spelled byte by byte.
proof fn lemma_spelled(value: Seq<u8>)
    requires
        crate::gate::is_header_text(value),
    ensures
        spells(crate::gate::ascii_chars(value), value),
{
    let chars = crate::gate::ascii_chars(value);
    assert forall|i: int| 0 <= i < chars.len() implies #[trigger] chars[i] as int
        == value[i] as int by {
        assert(crate::gate::is_visible(value[i]));
    }
}

/// Whether all of `s` are spaces and tabs.
pub open spec fn is_all_blank(s: Seq<u8>) -> bool {
    forall|i: int| 0 <= i < s.len() ==> (#[trigger] s[i]) == 32 || s[i] == 9
}

/// The hop that a forwarding header names is what stands before its first comma, without the blanks
/// around it, and whatever follows the comma has no say. A value with a byte that is not printable
/// names none.
pub proof fn hops_stand_before_the_first_comma(
    left: Seq<u8>,
    hop: Seq<u8>,
    right: Seq<u8>,
    rest: Seq<u8>,
)
    requires
        is_all_blank(left),
        is_all_blank(right),
        forall|i: int| 0 <= i < hop.len() ==> hop[i] != 44,
        hop.len() > 0 ==> !(hop[0] == 32 || hop[0] == 9) && !(hop.last() == 32 || hop.last() == 9),
        hop.len() == 0 ==> right.len() == 0,
        rest.len() > 0 ==> rest[0] == 44,
    ensures
        ({
            let value = left + hop + right + rest;
            if forall|i: int| 0 <= i < value.len() ==> is_printable(#[trigger] value[i]) {
                crate::gate::hop_of(value) matches Some(text) && spells(text, hop)
            } else {
                crate::gate::hop_of(value) is None
            }
        }),
{
    let value = left + hop + right + rest;
    let piece = left + hop + right;
    let n = piece.len() as int;
    let text = crate::gate::is_header_text(value);
    if forall|i: int| 0 <= i < value.len() ==> is_printable(#[trigger] value[i]) {
        assert forall|i: int| 0 <= i < value.len() implies crate::gate::is_visible(
            #[trigger] value[i],
        ) by {
            assert(is_printable(value[i]));
        }
        assert(text);
    } else {
        let i = choose|i: int| 0 <= i < value.len() && !is_printable(#[trigger] value[i]);
        assert(!crate::gate::is_visible(value[i]));
        assert(!text);
    }
    if text {
        assert forall|k: int| 0 <= k < n implies value[k] != 44 by {
            if k < left.len() {
                assert(value[k] == left[k]);
            } else if k < left.len() + hop.len() {
                assert(value[k] == hop[k - left.len()]);
            } else {
                assert(value[k] == right[k - left.len() - hop.len()]);
            }
        }
        if rest.len() > 0 {
            assert(value[n] == rest[0]);
        }
        crate::gate::lemma_first_comma(value, n);
        assert(value.take(n) =~= piece);
        let from = left.len() as int;
        let tail = hop + right;
        assert forall|k: int| 0 <= k < from implies crate::gate::is_blank(#[trigger] piece[k]) by {
            assert(piece[k] == left[k]);
        }
        if hop.len() > 0 {
            assert(piece[from] == hop[0]);
        }
        crate::gate::lemma_trimmed_start(piece, from);
        assert(piece.skip(from) =~= tail);
        let to = hop.len() as int;
        assert forall|k: int| to <= k < tail.len() implies crate::gate::is_blank(
            #[trigger] tail[k],
        ) by {
            assert(tail[k] == right[k - to]);
        }
        if to > 0 {
            assert(tail[to - 1] == hop.last());
        }
        crate::gate::lemma_trimmed_end(tail, to);
        assert(tail.take(to) =~= hop);
        assert(crate::gate::is_header_text(hop)) by {
            assert forall|i: int| 0 <= i < hop.len() implies crate::gate::is_visible(
                #[trigger] hop[i],
            ) by {
                assert(crate::gate::is_visible(value[from + i]));
            }
        }
        lemma_spelled(hop);
    }
}

} // verus!
