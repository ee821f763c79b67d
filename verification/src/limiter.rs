//! A per-peer token-bucket limiter.
//!
//! Each peer gets a bucket that refills continuously toward the limiter's capacity; a request
//! takes one token out. Time is counted in nanoseconds from an origin of the caller's choice.
//!
//! Amounts are exact. A rate is given in millionths of a token per minute, so the smallest amount
//! that matters is what a rate of one such unit brings in one nanosecond: a grain. A token is
//! 60,000,000,000 nanoseconds times 1,000,000 of them.

use std::collections::HashMap;
use std::hash::Hash;
use vstd::prelude::*;

verus! {

/// The grains in a millionth of a token.
pub const MICRO: u128 = 60_000_000_000;

/// The grains in a token.
pub const TOKEN: u128 = 60_000_000_000_000_000;

/// The number of buckets above which [`PeerLimiter::per_minute`] lets go of stale ones.
pub const EVICT_THRESHOLD: usize = 4096;

/// The address of a peer.
#[derive(Debug, Clone, Copy, PartialEq, Eq, Structural)]
pub enum PeerAddr {
    V4(u32),
    V6(u128),
}

/// A peer's bucket: what was in it, in grains, and when that was.
#[derive(Debug, Clone, Copy)]
pub struct Bucket {
    pub tokens: u128,
    pub last: u64,
}

/// The nanoseconds from `from` to `to`, or none if `to` is the earlier one.
pub open spec fn elapsed(from: u64, to: u64) -> nat {
    if to >= from {
        (to - from) as nat
    } else {
        0
    }
}

/// Whether `bucket` has been idle for twice the time that it takes to fill an empty one.
pub open spec fn is_stale(bucket: Bucket, capacity: nat, refill: nat, now: u64) -> bool {
    elapsed(bucket.last, now) * refill >= 2 * capacity
}

/// What a limiter is: its capacity in grains, the grains that a bucket gains in a nanosecond, the
/// number of buckets above which stale ones go, and the buckets.
pub struct LimiterView {
    pub capacity: nat,
    pub refill: nat,
    pub evict_threshold: nat,
    pub buckets: Map<PeerAddr, Bucket>,
}

impl LimiterView {
    /// What a bucket holds at `now`.
    pub open spec fn refilled(self, bucket: Bucket, now: u64) -> nat {
        let total = bucket.tokens + elapsed(bucket.last, now) * self.refill;
        if total < self.capacity {
            total as nat
        } else {
            self.capacity
        }
    }

    /// What `peer` has at `now`: a peer that is not known has a full bucket.
    pub open spec fn level(self, peer: PeerAddr, now: u64) -> nat {
        if self.buckets.contains_key(peer) {
            self.refilled(self.buckets[peer], now)
        } else {
            self.capacity
        }
    }

    /// Whether a bucket has been idle for twice the time that it takes to fill an empty one.
    pub open spec fn is_stale(self, bucket: Bucket, now: u64) -> bool {
        is_stale(bucket, self.capacity, self.refill, now)
    }

    /// The limiter without its stale buckets.
    pub open spec fn evicted(self, now: u64) -> LimiterView {
        LimiterView {
            buckets: self.buckets.restrict(
                Set::new(
                    |p: PeerAddr|
                        self.buckets.contains_key(p) && !self.is_stale(self.buckets[p], now),
                ),
            ),
            ..self
        }
    }

    /// The limiter as a request at `now` finds it: above the threshold, stale buckets go first.
    pub open spec fn tidied(self, now: u64) -> LimiterView {
        if self.buckets.dom().len() > self.evict_threshold {
            self.evicted(now)
        } else {
            self
        }
    }

    /// Whether a request of `peer` at `now` is let through.
    pub open spec fn admits(self, peer: PeerAddr, now: u64) -> bool {
        self.tidied(now).level(peer, now) >= TOKEN
    }

    /// The limiter after a request of `peer` at `now`.
    pub open spec fn consume(self, peer: PeerAddr, now: u64) -> LimiterView {
        let kept = self.tidied(now);
        let level = kept.level(peer, now);
        let left = if level >= TOKEN {
            level - TOKEN
        } else {
            level as int
        };
        LimiterView {
            buckets: kept.buckets.insert(peer, Bucket { tokens: left as u128, last: now }),
            ..kept
        }
    }

    /// The nanoseconds until a request of `peer` that is refused at `now` would find a token.
    pub open spec fn wait(self, peer: PeerAddr, now: u64) -> nat {
        let missing = (TOKEN - self.tidied(now).level(peer, now)) as nat;
        (missing + self.refill - 1) as nat / self.refill
    }

    /// Whether the limiter is one that can be: no bucket holds more than it can.
    pub open spec fn wf(self) -> bool {
        &&& self.capacity <= u64::MAX * MICRO
        &&& 0 < self.refill <= u64::MAX
        &&& self.buckets.dom().finite()
        &&& forall|p: PeerAddr| #[trigger]
            self.buckets.contains_key(p) ==> self.buckets[p].tokens <= self.capacity
    }
}

/// The buckets of all peers.
struct Buckets {
    v4: HashMap<u32, Bucket>,
    v6: HashMap<u128, Bucket>,
}

/// The buckets of both kinds of peers in one map.
spec fn joined(v4: Map<u32, Bucket>, v6: Map<u128, Bucket>) -> Map<PeerAddr, Bucket> {
    Map::new(
        |p: PeerAddr|
            match p {
                PeerAddr::V4(a) => v4.contains_key(a),
                PeerAddr::V6(a) => v6.contains_key(a),
            },
        |p: PeerAddr|
            match p {
                PeerAddr::V4(a) => v4[a],
                PeerAddr::V6(a) => v6[a],
            },
    )
}

/// Peers of both kinds add up.
proof fn lemma_joined_len(v4: Map<u32, Bucket>, v6: Map<u128, Bucket>)
    requires
        v4.dom().finite(),
        v6.dom().finite(),
    ensures
        joined(v4, v6).dom().finite(),
        joined(v4, v6).dom().len() == v4.dom().len() + v6.dom().len(),
{
    let f = |a: u32| PeerAddr::V4(a);
    let g = |a: u128| PeerAddr::V6(a);
    let left = v4.dom().map(f);
    let right = v6.dom().map(g);
    vstd::set_lib::lemma_map_size(v4.dom(), left, f);
    vstd::set_lib::lemma_map_size(v6.dom(), right, g);
    v4.dom().lemma_map_finite(f);
    v6.dom().lemma_map_finite(g);
    assert(left.disjoint(right));
    vstd::set_lib::lemma_set_disjoint_lens(left, right);
    assert(joined(v4, v6).dom() =~= left + right) by {
        assert forall|p: PeerAddr| joined(v4, v6).contains_key(p) implies (left + right).contains(
            p,
        ) by {
            match p {
                PeerAddr::V4(a) => {
                    assert(v4.dom().contains(a) && f(a) == p);
                },
                PeerAddr::V6(a) => {
                    assert(v6.dom().contains(a) && g(a) == p);
                },
            }
        }
    }
}

/// The buckets among `buckets` that are not stale.
spec fn fresh<K>(buckets: Map<K, Bucket>, capacity: nat, refill: nat, now: u64) -> Map<K, Bucket> {
    buckets.restrict(
        Set::new(
            |k: K| buckets.contains_key(k) && !is_stale(buckets[k], capacity, refill, now),
        ),
    )
}

/// The grains that a bucket gains from `last` to `now`, if it has room for them.
fn gained(last: u64, now: u64, refill: u64) -> (grains: u128)
    ensures
        grains == elapsed(last, now) * refill,
{
    let idle: u64 = now.saturating_sub(last);
    assert(0 <= idle * refill <= u128::MAX) by (nonlinear_arith)
        requires
            0 <= idle <= u64::MAX,
            0 <= refill <= u64::MAX,
    ;
    idle as u128 * refill as u128
}

/// Lets go of the stale buckets among `buckets`.
fn evict_from<K: Copy + Eq + Hash>(
    buckets: &mut HashMap<K, Bucket>,
    capacity: u128,
    refill: u64,
    now: u64,
)
    requires
        vstd::std_specs::hash::obeys_key_model::<K>(),
        capacity <= u64::MAX * MICRO,
    ensures
        final(buckets)@ == fresh(old(buckets)@, capacity as nat, refill as nat, now),
{
    broadcast use vstd::std_specs::hash::group_hash_axioms;

    let ghost start = buckets@;
    let mut kept: HashMap<K, Bucket> = HashMap::new();
    assert(u64::MAX * MICRO * 2 <= u128::MAX);
    for (key, bucket) in it: buckets.iter()
        invariant
            vstd::std_specs::hash::obeys_key_model::<K>(),
            capacity * 2 <= u128::MAX,
            buckets@ == start,
            it.seq() == vstd::std_specs::iter::IteratorSpec::remaining(&buckets.iter()),
            forall|k: K| #[trigger]
                kept@.contains_key(k) ==> start.contains_key(k) && kept@[k] == start[k]
                    && !is_stale(start[k], capacity as nat, refill as nat, now),
            forall|i: int|
                0 <= i < it.index() && !is_stale(
                    *(#[trigger] it.seq()[i]).1,
                    capacity as nat,
                    refill as nat,
                    now,
                ) ==> kept@.contains_key(*it.seq()[i].0),
    {
        broadcast use vstd::std_specs::hash::group_hash_axioms;

        assert(start.contains_key(*key) && start[*key] == *bucket);
        if gained(bucket.last, now, refill) < 2 * capacity {
            kept.insert(*key, *bucket);
        }
    }
    proof {
        let all = vstd::std_specs::iter::IteratorSpec::remaining(&buckets.iter());
        assert forall|k: K|
            start.contains_key(k) && !is_stale(
                start[k],
                capacity as nat,
                refill as nat,
                now,
            ) implies #[trigger] kept@.contains_key(k) by {
            assert(all.contains((&k, &start[k])));
            let i = choose|i: int| 0 <= i < all.len() && all[i] == (&k, &start[k]);
            assert(*all[i].0 == k);
        }
        assert(kept@ =~= fresh(start, capacity as nat, refill as nat, now));
    }
    *buckets = kept;
}

/// A token-bucket limiter with a bucket for each peer.
pub struct PeerLimiter {
    capacity: u128,
    refill: u64,
    evict_threshold: usize,
    buckets: Buckets,
}

impl View for PeerLimiter {
    type V = LimiterView;

    closed spec fn view(&self) -> LimiterView {
        LimiterView {
            capacity: self.capacity as nat,
            refill: self.refill as nat,
            evict_threshold: self.evict_threshold as nat,
            buckets: joined(self.buckets.v4@, self.buckets.v6@),
        }
    }
}

impl PeerLimiter {
    /// Whether the limiter is in order.
    pub open spec fn wf(self) -> bool {
        self@.wf()
    }

    /// A limiter whose buckets hold `capacity_micro` millionths of a token and gain
    /// `refill_micro_per_min` of them per minute. Above `evict_threshold` buckets it lets go of
    /// stale ones.
    pub fn new(capacity_micro: u64, refill_micro_per_min: u64, evict_threshold: usize) -> (limiter:
        Self)
        requires
            refill_micro_per_min > 0,
        ensures
            limiter.wf(),
            limiter@ == (LimiterView {
                capacity: (capacity_micro * MICRO) as nat,
                refill: refill_micro_per_min as nat,
                evict_threshold: evict_threshold as nat,
                buckets: Map::empty(),
            }),
    {
        broadcast use vstd::std_specs::hash::group_hash_axioms;

        assert(0 <= capacity_micro * MICRO <= u64::MAX * MICRO) by (nonlinear_arith)
            requires
                0 <= capacity_micro <= u64::MAX,
                0 < MICRO,
        ;
        assert(u64::MAX * MICRO <= u128::MAX);
        let limiter = PeerLimiter {
            capacity: capacity_micro as u128 * MICRO,
            refill: refill_micro_per_min,
            evict_threshold,
            buckets: Buckets { v4: HashMap::new(), v6: HashMap::new() },
        };
        assert(limiter@.buckets =~= Map::<PeerAddr, Bucket>::empty());
        limiter
    }

    /// A limiter that lets each peer through `rate` times per minute, and at least once: its
    /// buckets hold that many tokens and fill in a minute.
    pub fn per_minute(rate: u32) -> (limiter: Self)
        ensures
            limiter.wf(),
            limiter@ == (LimiterView {
                capacity: ((if rate == 0 {
                    1
                } else {
                    rate as int
                }) * TOKEN) as nat,
                refill: ((if rate == 0 {
                    1
                } else {
                    rate as int
                }) * 1_000_000) as nat,
                evict_threshold: EVICT_THRESHOLD as nat,
                buckets: Map::empty(),
            }),
    {
        let tokens: u64 = if rate == 0 { 1 } else { rate as u64 };
        assert(TOKEN == 1_000_000 * MICRO);
        PeerLimiter::new(tokens * 1_000_000, tokens * 1_000_000, EVICT_THRESHOLD)
    }

    /// What a bucket holds at `now`.
    fn refilled(&self, bucket: Bucket, now: u64) -> (tokens: u128)
        requires
            self@.wf(),
            bucket.tokens <= self@.capacity,
        ensures
            tokens == self@.refilled(bucket, now),
            tokens <= self@.capacity,
    {
        let gained: u128 = gained(bucket.last, now, self.refill);
        if gained >= self.capacity - bucket.tokens {
            self.capacity
        } else {
            bucket.tokens + gained
        }
    }

    /// The bucket of `peer`, if it has one.
    fn bucket_of(&self, peer: PeerAddr) -> (bucket: Option<Bucket>)
        ensures
            bucket == if self@.buckets.contains_key(peer) {
                Some(self@.buckets[peer])
            } else {
                None
            },
    {
        broadcast use vstd::std_specs::hash::group_hash_axioms;

        let found = match peer {
            PeerAddr::V4(a) => self.buckets.v4.get(&a),
            PeerAddr::V6(a) => self.buckets.v6.get(&a),
        };
        match found {
            Some(bucket) => Some(*bucket),
            None => None,
        }
    }

    /// Gives `peer` a bucket.
    fn set_bucket(&mut self, peer: PeerAddr, bucket: Bucket)
        ensures
            final(self)@ == (LimiterView {
                buckets: old(self)@.buckets.insert(peer, bucket),
                ..old(self)@
            }),
    {
        broadcast use vstd::std_specs::hash::group_hash_axioms;

        match peer {
            PeerAddr::V4(a) => {
                self.buckets.v4.insert(a, bucket);
            },
            PeerAddr::V6(a) => {
                self.buckets.v6.insert(a, bucket);
            },
        }
        assert(self@.buckets =~= old(self)@.buckets.insert(peer, bucket));
    }

    /// Whether more than `n` peers have a bucket.
    fn has_more_than(&self, n: usize) -> (more: bool)
        ensures
            more == (self@.buckets.dom().len() > n),
    {
        broadcast use vstd::std_specs::hash::group_hash_axioms;

        proof {
            lemma_joined_len(self.buckets.v4@, self.buckets.v6@);
        }
        let known: usize = self.buckets.v4.len();
        known > n || self.buckets.v6.len() > n - known
    }

    /// Lets go of the stale buckets.
    fn evict(&mut self, now: u64)
        requires
            old(self).wf(),
        ensures
            final(self).wf(),
            final(self)@ == old(self)@.evicted(now),
    {
        broadcast use vstd::std_specs::hash::group_hash_axioms;

        let ghost start = self@;
        evict_from(&mut self.buckets.v4, self.capacity, self.refill, now);
        evict_from(&mut self.buckets.v6, self.capacity, self.refill, now);
        proof {
            assert(self@.buckets =~= start.evicted(now).buckets);
            lemma_joined_len(self.buckets.v4@, self.buckets.v6@);
        }
    }

    /// Takes one token out of the bucket of `peer`. If there is none, tells how many nanoseconds
    /// it takes until there is one.
    pub fn try_consume(&mut self, peer: PeerAddr, now: u64) -> (outcome: Result<(), u64>)
        requires
            old(self).wf(),
        ensures
            final(self).wf(),
            final(self)@ == old(self)@.consume(peer, now),
            outcome is Ok == old(self)@.admits(peer, now),
            outcome matches Err(nanos) ==> nanos == old(self)@.wait(peer, now),
    {
        let ghost start = self@;
        if self.has_more_than(self.evict_threshold) {
            self.evict(now);
        }
        let ghost kept = self@;
        assert(kept == start.tidied(now));
        let level: u128 = match self.bucket_of(peer) {
            Some(bucket) => self.refilled(bucket, now),
            None => self.capacity,
        };
        assert(level == kept.level(peer, now));
        if level >= TOKEN {
            self.set_bucket(peer, Bucket { tokens: level - TOKEN, last: now });
            proof {
                assert(self@.buckets =~= start.consume(peer, now).buckets);
            }
            Ok(())
        } else {
            self.set_bucket(peer, Bucket { tokens: level, last: now });
            let missing: u128 = TOKEN - level;
            let refill: u128 = self.refill as u128;
            let nanos: u128 = (missing + (refill - 1)) / refill;
            proof {
                assert(self@.buckets =~= start.consume(peer, now).buckets);
                lemma_ceil(missing as int, refill as int);
            }
            Err(nanos as u64)
        }
    }

    /// How many peers have a bucket, as far as that can be counted.
    pub fn bucket_count(&self) -> (n: usize)
        ensures
            n == if self@.buckets.dom().len() <= usize::MAX {
                self@.buckets.dom().len() as int
            } else {
                usize::MAX as int
            },
    {
        broadcast use vstd::std_specs::hash::group_hash_axioms;

        proof {
            lemma_joined_len(self.buckets.v4@, self.buckets.v6@);
        }
        self.buckets.v4.len().saturating_add(self.buckets.v6.len())
    }
}

/// Rounding up: the smallest number of steps of `refill` that makes up for `missing`.
pub proof fn lemma_ceil(missing: int, refill: int)
    requires
        missing > 0,
        refill > 0,
    ensures
        ({
            let n = (missing + (refill - 1)) / refill;
            &&& 0 < n <= missing
            &&& n * refill >= missing
            &&& (n - 1) * refill < missing
        }),
{
    let n = (missing + (refill - 1)) / refill;
    vstd::arithmetic::div_mod::lemma_fundamental_div_mod(missing + (refill - 1), refill);
    assert(0 < n <= missing && n * refill >= missing && (n - 1) * refill < missing)
        by (nonlinear_arith)
        requires
            missing > 0,
            refill > 0,
            missing + (refill - 1) == refill * n + (missing + (refill - 1)) % refill,
            0 <= (missing + (refill - 1)) % refill < refill,
    ;
}

/// No peer ever has more than a full bucket, and requests keep it that way.
pub proof fn levels_are_capped(limiter: LimiterView, peer: PeerAddr, now: u64)
    requires
        limiter.wf(),
    ensures
        limiter.level(peer, now) <= limiter.capacity,
        limiter.consume(peer, now).wf(),
{
    let kept = limiter.tidied(now);
    lemma_tidied(limiter, now);
    assert(kept.level(peer, now) <= kept.capacity);
}

/// A limiter that was tidied up is still one that can be.
pub proof fn lemma_tidied(limiter: LimiterView, now: u64)
    requires
        limiter.wf(),
    ensures
        limiter.tidied(now).wf(),
        limiter.tidied(now).capacity == limiter.capacity,
        limiter.tidied(now).refill == limiter.refill,
{
    assert(limiter.evicted(now).buckets.dom().subset_of(limiter.buckets.dom()));
    vstd::set_lib::lemma_set_subset_finite(
        limiter.buckets.dom(),
        limiter.evicted(now).buckets.dom(),
    );
}

/// To let go of a stale bucket makes no difference to its peer: the bucket has been full for long.
pub proof fn eviction_is_unobservable(
    limiter: LimiterView,
    peer: PeerAddr,
    now: u64,
    later: u64,
)
    requires
        limiter.wf(),
        now <= later,
    ensures
        limiter.evicted(now).level(peer, later) == limiter.level(peer, later),
        limiter.tidied(now).level(peer, later) == limiter.level(peer, later),
{
    if limiter.buckets.contains_key(peer) {
        let bucket = limiter.buckets[peer];
        if limiter.is_stale(bucket, now) {
            let a = elapsed(bucket.last, now) as int;
            let b = elapsed(bucket.last, later) as int;
            let r = limiter.refill as int;
            assert(a * r <= b * r) by (nonlinear_arith)
                requires
                    0 <= a <= b,
                    0 <= r,
            ;
            assert(limiter.refilled(bucket, later) == limiter.capacity);
        }
    }
}

/// A request takes its token out of the bucket of its own peer.
pub proof fn lemma_own_level(limiter: LimiterView, peer: PeerAddr, now: u64)
    requires
        limiter.wf(),
    ensures
        limiter.admits(peer, now) == (limiter.level(peer, now) >= TOKEN),
        limiter.consume(peer, now).buckets.contains_key(peer),
        limiter.consume(peer, now).buckets[peer].last == now,
        limiter.consume(peer, now).level(peer, now) == limiter.level(peer, now) - if limiter.admits(
            peer,
            now,
        ) {
            TOKEN as int
        } else {
            0
        },
        limiter.consume(peer, now).buckets[peer].tokens == limiter.consume(peer, now).level(
            peer,
            now,
        ),
        limiter.consume(peer, now).refill == limiter.refill,
        limiter.consume(peer, now).capacity == limiter.capacity,
{
    eviction_is_unobservable(limiter, peer, now, now);
    levels_are_capped(limiter, peer, now);
    lemma_tidied(limiter, now);
    let after = limiter.consume(peer, now);
    let bucket = after.buckets[peer];
    assert(u64::MAX * MICRO <= u128::MAX);
    assert(elapsed(bucket.last, now) * after.refill == 0) by (nonlinear_arith)
        requires
            elapsed(bucket.last, now) == 0,
    ;
}

/// Peers do not get in each other's way: a request of one changes nothing for any other.
pub proof fn peers_are_independent(
    limiter: LimiterView,
    peer: PeerAddr,
    other: PeerAddr,
    now: u64,
    later: u64,
)
    requires
        limiter.wf(),
        peer != other,
        now <= later,
    ensures
        limiter.consume(peer, now).level(other, later) == limiter.level(other, later),
        limiter.consume(peer, now).admits(other, later) == limiter.admits(other, later),
{
    eviction_is_unobservable(limiter, other, now, later);
    levels_are_capped(limiter, peer, now);
    lemma_tidied(limiter, now);
    let after = limiter.consume(peer, now);
    assert(after.level(other, later) == limiter.tidied(now).level(other, later));
    eviction_is_unobservable(after, other, later, later);
    eviction_is_unobservable(limiter, other, later, later);
}

/// A peer that is refused and waits as long as it was told is let through, and no sooner, where
/// a bucket can hold a token at all.
pub proof fn waiting_is_rewarded(limiter: LimiterView, peer: PeerAddr, now: u64, later: u64)
    requires
        limiter.wf(),
        limiter.capacity >= TOKEN,
        !limiter.admits(peer, now),
        now <= later,
    ensures
        limiter.consume(peer, now).admits(peer, later) == (later - now >= limiter.wait(peer, now)),
{
    lemma_own_level(limiter, peer, now);
    eviction_is_unobservable(limiter, peer, now, now);
    levels_are_capped(limiter, peer, now);
    let after = limiter.consume(peer, now);
    eviction_is_unobservable(after, peer, later, later);
    let missing = TOKEN - limiter.level(peer, now);
    let r = limiter.refill as int;
    let n = limiter.wait(peer, now) as int;
    let d = (later - now) as int;
    lemma_ceil(missing, r);
    assert(n == (missing + (r - 1)) / r);
    if d >= n {
        assert(d * r >= n * r) by (nonlinear_arith)
            requires
                d >= n,
                r > 0,
        ;
    } else {
        assert(d * r <= (n - 1) * r) by (nonlinear_arith)
            requires
                d <= n - 1,
                r > 0,
        ;
    }
}

/// A bucket gains no more than the time allows, and loses nothing.
pub proof fn lemma_growth(limiter: LimiterView, peer: PeerAddr, now: u64, later: u64)
    requires
        limiter.wf(),
        now <= later,
    ensures
        limiter.level(peer, now) <= limiter.level(peer, later) <= limiter.level(peer, now) + (later
            - now) * limiter.refill,
{
    let r = limiter.refill as int;
    assert((later - now) * r >= 0) by (nonlinear_arith)
        requires
            now <= later,
            r > 0,
    ;
    if limiter.buckets.contains_key(peer) {
        let bucket = limiter.buckets[peer];
        let a = elapsed(bucket.last, now) as int;
        let b = elapsed(bucket.last, later) as int;
        let d = (later - now) as int;
        assert(a * r <= b * r <= a * r + d * r) by (nonlinear_arith)
            requires
                0 <= a <= b <= a + d,
                r > 0,
        ;
    }
}

/// The limiter after `requests`, each with its peer and its time.
pub open spec fn after_all(limiter: LimiterView, requests: Seq<(PeerAddr, u64)>) -> LimiterView
    decreases requests.len(),
{
    if requests.len() == 0 {
        limiter
    } else {
        after_all(limiter, requests.drop_last()).consume(requests.last().0, requests.last().1)
    }
}

/// How many of the `requests` are requests of `peer` that are let through.
pub open spec fn served(
    limiter: LimiterView,
    requests: Seq<(PeerAddr, u64)>,
    peer: PeerAddr,
) -> nat
    decreases requests.len(),
{
    if requests.len() == 0 {
        0
    } else {
        served(limiter, requests.drop_last(), peer) + if requests.last().0 == peer && after_all(
            limiter,
            requests.drop_last(),
        ).admits(peer, requests.last().1) {
            1
        } else {
            0nat
        }
    }
}

/// Whether the `requests` come one after the other.
pub open spec fn in_order(requests: Seq<(PeerAddr, u64)>) -> bool {
    forall|i: int, j: int|
        0 <= i <= j < requests.len() ==> (#[trigger] requests[i]).1 <= (#[trigger] requests[j]).1
}

/// What was served and what is left, against what was there and what came in.
proof fn lemma_balance(limiter: LimiterView, requests: Seq<(PeerAddr, u64)>, peer: PeerAddr)
    requires
        limiter.wf(),
        requests.len() > 0,
        in_order(requests),
    ensures
        after_all(limiter, requests).wf(),
        after_all(limiter, requests).capacity == limiter.capacity,
        after_all(limiter, requests).refill == limiter.refill,
        served(limiter, requests, peer) * TOKEN + after_all(limiter, requests).level(
            peer,
            requests.last().1,
        ) <= limiter.capacity + (requests.last().1 - requests[0].1) * limiter.refill,
    decreases requests.len(),
{
    let before = requests.drop_last();
    let (caller, now) = requests.last();
    let state = after_all(limiter, before);
    let r = limiter.refill as int;
    if before.len() > 0 {
        assert(in_order(before)) by {
            assert forall|i: int, j: int| 0 <= i <= j < before.len() implies (
            #[trigger] before[i]).1 <= (#[trigger] before[j]).1 by {
                assert(requests[i].1 <= requests[j].1);
            }
        }
        lemma_balance(limiter, before, peer);
        assert(requests[before.len() - 1].1 <= requests[before.len() as int].1);
        assert(requests[0].1 <= requests[before.len() - 1].1);
        let mid = before.last().1 as int;
        let first = requests[0].1 as int;
        lemma_growth(state, peer, before.last().1, now);
        assert((mid - first) * r + (now - mid) * r == (now - first) * r) by (nonlinear_arith);
    } else {
        levels_are_capped(limiter, peer, now);
        assert((now - requests[0].1) * r == 0) by (nonlinear_arith)
            requires
                now == requests[0].1,
        ;
    }
    levels_are_capped(state, caller, now);
    if caller == peer {
        lemma_own_level(state, peer, now);
    } else {
        peers_are_independent(state, caller, peer, now, now);
    }
    lemma_tidied(state, now);
    let n = served(limiter, before, peer) as int;
    assert((n + 1) * TOKEN == n * TOKEN + TOKEN) by (nonlinear_arith);
}

/// The limit holds: in any span of time, a peer is let through no more often than a full bucket
/// and what flows into it in that time allow, whatever other peers do.
pub proof fn admissions_are_bounded(
    limiter: LimiterView,
    requests: Seq<(PeerAddr, u64)>,
    peer: PeerAddr,
)
    requires
        limiter.wf(),
        requests.len() > 0,
        in_order(requests),
    ensures
        served(limiter, requests, peer) * TOKEN <= limiter.capacity + (requests.last().1
            - requests[0].1) * limiter.refill,
{
    lemma_balance(limiter, requests, peer);
}

/// A peer that has made no request yet finds a full bucket.
pub proof fn new_peers_start_full(limiter: LimiterView, peer: PeerAddr, now: u64)
    requires
        limiter.wf(),
        !limiter.buckets.contains_key(peer),
    ensures
        limiter.admits(peer, now) == (limiter.capacity >= TOKEN),
{
    eviction_is_unobservable(limiter, peer, now, now);
}

} // verus!
