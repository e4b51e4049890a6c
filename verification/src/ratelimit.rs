//! A strict rate limiter per peer: the token bucket.
//!
//! Every peer has a bucket that holds as many tokens as it may make requests in a second. Tokens
//! come back continuously over time, up to that number. A request takes one token, and is refused
//! where there is none. Tokens are counted in billionths, so that the count is exact for times in
//! nanoseconds.
use crate::clock;
use vstd::hash_map::StringHashMap;
use vstd::prelude::*;

verus! {

/// One token, in billionths.
pub const TOKEN: u64 = 1_000_000_000;

/// The tokens of one peer.
#[derive(Clone, Copy)]
pub struct Bucket {
    /// The tokens that were left, in billionths.
    pub tokens: u64,
    /// The time at which they were counted, in nanoseconds.
    pub last: u64,
}

/// The limiter that all incoming streams share.
pub struct RateLimiter {
    clock: clock::Clock,
    latest: u64,
    buckets: StringHashMap<Bucket>,
}

/// The tokens of a peer at the time `now`, in billionths: all that it may have for a new peer,
/// and otherwise those that were left and those that came back since.
pub open spec fn refilled(b: Option<Bucket>, rate: u32, now: u64) -> int {
    match b {
        None => rate * TOKEN,
        Some(b) => {
            let elapsed = if now > b.last {
                now - b.last
            } else {
                0
            };
            if b.tokens + elapsed * rate < rate * TOKEN {
                b.tokens + elapsed * rate
            } else {
                rate * TOKEN
            }
        },
    }
}

/// Whether a request at the time `now` is allowed. There is no limit at a rate of zero.
pub open spec fn is_allowed(b: Option<Bucket>, rate: u32, now: u64) -> bool {
    rate == 0 || refilled(b, rate, now) >= TOKEN
}

/// The bucket after a request at the time `now`.
pub open spec fn after_request(b: Option<Bucket>, rate: u32, now: u64) -> Option<Bucket> {
    if rate == 0 {
        b
    } else if refilled(b, rate, now) >= TOKEN {
        Some(Bucket { tokens: (refilled(b, rate, now) - TOKEN) as u64, last: now })
    } else {
        Some(Bucket { tokens: refilled(b, rate, now) as u64, last: now })
    }
}

/// The bucket of a peer.
pub open spec fn bucket_of(buckets: Map<Seq<char>, Bucket>, peer: Seq<char>) -> Option<Bucket> {
    if buckets.dom().contains(peer) {
        Some(buckets[peer])
    } else {
        None
    }
}

/// All buckets after a request of `peer` at the time `now`: no other peer's bucket changes.
pub open spec fn buckets_after(
    buckets: Map<Seq<char>, Bucket>,
    peer: Seq<char>,
    rate: u32,
    now: u64,
) -> Map<Seq<char>, Bucket> {
    match after_request(bucket_of(buckets, peer), rate, now) {
        Some(b) => if rate == 0 {
            buckets
        } else {
            buckets.insert(peer, b)
        },
        None => buckets,
    }
}

impl RateLimiter {
    /// The buckets of all peers.
    pub closed spec fn view(&self) -> Map<Seq<char>, Bucket> {
        self.buckets@
    }

    /// The latest time that was read off the clock of the limiter, in nanoseconds.
    pub closed spec fn latest(&self) -> u64 {
        self.latest
    }

    /// The clock that was started with the limiter.
    pub closed spec fn own_clock(&self) -> clock::Clock {
        self.clock
    }

    /// A limiter that has seen no peer.
    pub fn new() -> (r: RateLimiter)
        ensures
            r@ == Map::<Seq<char>, Bucket>::empty(),
            r.latest() == 0,
    {
        RateLimiter { clock: clock::Clock::new(), latest: 0, buckets: StringHashMap::new() }
    }

    /// The time by the clock of the limiter, in nanoseconds. The times that are read are in order:
    /// none is before one that was read earlier.
    pub fn now(&mut self) -> (r: u64)
        ensures
            r >= old(self).latest(),
            final(self).latest() == r,
            final(self)@ == old(self)@,
            final(self).own_clock() == old(self).own_clock(),
    {
        let read: u64 = self.clock.now();
        if read > self.latest {
            self.latest = read;
        }
        self.latest
    }

    /// Takes one token of `peer` at a limit of `rate` requests per second, at the time `now` in
    /// nanoseconds. Returns whether the request is allowed.
    pub fn allow_at(&mut self, peer: &str, rate: u32, now: u64) -> (r: bool)
        ensures
            r == is_allowed(bucket_of(old(self)@, peer@), rate, now),
            final(self)@ == buckets_after(old(self)@, peer@, rate, now),
            final(self).latest() == old(self).latest(),
            final(self).own_clock() == old(self).own_clock(),
    {
        if rate == 0 {
            return true;
        }
        let cap: u64 = rate as u64 * TOKEN;
        let tokens: u64 = match self.buckets.get(peer) {
            None => cap,
            Some(b) => {
                let elapsed: u64 = if now > b.last {
                    now - b.last
                } else {
                    0
                };
                proof {
                    lemma_product_fits(elapsed, rate);
                }
                let grown: u128 = b.tokens as u128 + elapsed as u128 * rate as u128;
                if grown < cap as u128 {
                    grown as u64
                } else {
                    cap
                }
            },
        };
        let allowed = tokens >= TOKEN;
        let left: u64 = if allowed {
            tokens - TOKEN
        } else {
            tokens
        };
        self.buckets.insert(peer.to_owned(), Bucket { tokens: left, last: now });
        allowed
    }

    /// Takes one token of `peer` at a limit of `rate` requests per second, now. Returns whether
    /// the request is allowed.
    pub fn allow(&mut self, peer: &str, rate: u32) -> (r: bool)
        ensures
            r == is_allowed(bucket_of(old(self)@, peer@), rate, final(self).latest()),
            final(self)@ == buckets_after(old(self)@, peer@, rate, final(self).latest()),
            final(self).latest() >= old(self).latest(),
            final(self).own_clock() == old(self).own_clock(),
            rate == 0 ==> r,
            !old(self)@.dom().contains(peer@) ==> r,
    {
        let now: u64 = self.now();
        let r = self.allow_at(peer, rate, now);
        proof {
            assert(rate > 0 ==> rate * TOKEN >= TOKEN) by (nonlinear_arith);
        }
        r
    }
}

impl Default for RateLimiter {
    fn default() -> (r: RateLimiter)
        ensures
            r@ == Map::<Seq<char>, Bucket>::empty(),
            r.latest() == 0,
    {
        RateLimiter::new()
    }
}

proof fn lemma_product_fits(elapsed: u64, rate: u32)
    ensures
        0 <= elapsed * rate <= 0xffff_ffff_ffff_ffff * 0xffff_ffff,
{
    assert(0 <= elapsed * rate <= 0xffff_ffff_ffff_ffff * 0xffff_ffff) by (nonlinear_arith)
        requires
            0 <= elapsed <= 0xffff_ffff_ffff_ffff,
            0 <= rate <= 0xffff_ffff,
    ;
}

/// The bucket after requests at the given times.
pub open spec fn after_requests(b: Option<Bucket>, rate: u32, times: Seq<u64>) -> Option<Bucket>
    decreases times.len(),
{
    if times.len() == 0 {
        b
    } else {
        after_request(after_requests(b, rate, times.drop_last()), rate, times.last())
    }
}

/// The number of requests at the given times that are allowed.
pub open spec fn allowed_count(b: Option<Bucket>, rate: u32, times: Seq<u64>) -> nat
    decreases times.len(),
{
    if times.len() == 0 {
        0
    } else {
        let before = allowed_count(b, rate, times.drop_last());
        if is_allowed(after_requests(b, rate, times.drop_last()), rate, times.last()) {
            before + 1
        } else {
            before
        }
    }
}

/// Whether no time is before the one that precedes it.
pub open spec fn in_order(times: Seq<u64>) -> bool {
    forall|i: int, j: int| 0 <= i <= j < times.len() ==> times[i] <= times[j]
}

/// The limit holds over every stretch of time: whatever the bucket held, of the requests between
/// two times at most as many are allowed as the bucket can hold and as tokens come back between
/// these times.
pub proof fn law_limit_over_time(b: Option<Bucket>, rate: u32, times: Seq<u64>)
    requires
        rate > 0,
        times.len() > 0,
        in_order(times),
    ensures
        allowed_count(b, rate, times) * TOKEN <= rate * TOKEN + (times.last() - times.first())
            * rate,
{
    lemma_limit_over_time(b, rate, times);
}

proof fn lemma_limit_over_time(b: Option<Bucket>, rate: u32, times: Seq<u64>)
    requires
        rate > 0,
        times.len() > 0,
        in_order(times),
    ensures
        after_requests(b, rate, times) matches Some(a) && a.last == times.last()
            && allowed_count(b, rate, times) * TOKEN + a.tokens <= rate * TOKEN + (times.last()
            - times.first()) * rate,
    decreases times.len(),
{
    let init = times.drop_last();
    let now = times.last();
    let prior = after_requests(b, rate, init);
    assert(rate * TOKEN <= 0xffff_ffff * 1_000_000_000);
    if init.len() == 0 {
        assert(allowed_count(b, rate, init) == 0);
        assert((times.last() - times.first()) * rate == 0) by (nonlinear_arith)
            requires
                times.last() == times.first(),
        ;
        lemma_refilled_bounds(prior, rate, now);
    } else {
        assert(in_order(init));
        lemma_limit_over_time(b, rate, init);
        assert(init.first() == times.first());
        assert(times[init.len() - 1] <= times[times.len() - 1]);
        let a = prior->0;
        lemma_refilled_bounds(prior, rate, now);
        assert((now - times.first()) * rate == (init.last() - times.first()) * rate + (now
            - init.last()) * rate) by (nonlinear_arith);
        assert(refilled(prior, rate, now) <= a.tokens + (now - a.last) * rate);
    }
}

proof fn lemma_refilled_bounds(b: Option<Bucket>, rate: u32, now: u64)
    ensures
        0 <= refilled(b, rate, now) <= rate * TOKEN <= u64::MAX,
{
    if let Some(b) = b {
        let elapsed = if now > b.last {
            now - b.last
        } else {
            0
        };
        assert(0 <= elapsed * rate) by (nonlinear_arith)
            requires
                0 <= elapsed,
        ;
    }
}

/// No bucket ever holds more tokens than the rate says.
pub proof fn law_bucket_never_overflows(b: Option<Bucket>, rate: u32, now: u64)
    requires
        rate > 0,
    ensures
        after_request(b, rate, now) matches Some(a) && a.tokens <= rate * TOKEN && a.last == now,
{
    lemma_refilled_bounds(b, rate, now);
}

/// A peer that waits is served: once a token's worth of time has passed since its last request,
/// the next one is allowed.
pub proof fn law_waiting_peer_is_allowed(b: Bucket, rate: u32, now: u64)
    requires
        now >= b.last,
        (now - b.last) * rate >= TOKEN,
    ensures
        is_allowed(Some(b), rate, now),
{
    if rate > 0 {
        assert(rate * TOKEN >= TOKEN) by (nonlinear_arith)
            requires
                rate > 0,
        ;
        assert(now == b.last ==> (now - b.last) * rate == 0) by (nonlinear_arith);
    }
}

/// A new peer may make as many requests at once as its rate says.
pub proof fn law_burst_of_a_new_peer(rate: u32, times: Seq<u64>)
    requires
        times.len() <= rate,
        in_order(times),
    ensures
        allowed_count(None, rate, times) == times.len(),
{
    lemma_burst(rate, times);
}

proof fn lemma_burst(rate: u32, times: Seq<u64>)
    requires
        times.len() <= rate,
        in_order(times),
    ensures
        allowed_count(None, rate, times) == times.len(),
        match after_requests(None, rate, times) {
            None => times.len() == 0,
            Some(a) => times.len() > 0 && a.last == times.last() && a.tokens >= (rate - times.len())
                * TOKEN,
        },
    decreases times.len(),
{
    if times.len() > 0 {
        let init = times.drop_last();
        let now = times.last();
        assert(in_order(init));
        lemma_burst(rate, init);
        let prior = after_requests(None, rate, init);
        lemma_refilled_bounds(prior, rate, now);
        assert(rate * TOKEN >= (rate - init.len()) * TOKEN >= TOKEN) by (nonlinear_arith)
            requires
                init.len() < rate,
        ;
        assert((rate - init.len()) * TOKEN - TOKEN == (rate - times.len()) * TOKEN)
            by (nonlinear_arith)
            requires
                times.len() == init.len() + 1,
        ;
        if let Some(a) = prior {
            assert(times[init.len() - 1] <= times[times.len() - 1]);
            assert((now - a.last) * rate >= 0) by (nonlinear_arith)
                requires
                    now >= a.last,
            ;
        }
    }
}

/// Without a limit every request is allowed.
pub proof fn law_no_limit(b: Option<Bucket>, times: Seq<u64>)
    ensures
        allowed_count(b, 0, times) == times.len(),
    decreases times.len(),
{
    if times.len() > 0 {
        law_no_limit(b, times.drop_last());
    }
}

/// Requests that come later take nothing away from those that were allowed.
pub proof fn law_later_requests_take_nothing_away(
    b: Option<Bucket>,
    rate: u32,
    times: Seq<u64>,
    n: int,
)
    requires
        0 <= n <= times.len(),
    ensures
        allowed_count(b, rate, times.take(n)) <= allowed_count(b, rate, times),
    decreases times.len(),
{
    if n < times.len() {
        law_later_requests_take_nothing_away(b, rate, times.drop_last(), n);
        assert(times.drop_last().take(n) == times.take(n));
    } else {
        assert(times.take(n) == times);
    }
}

/// Tokens come back in proportion to the time that has passed and to the rate, a rate's worth in a
/// second, up to the rate and not beyond. Time that runs backwards brings none. A new peer has as
/// many as the rate says.
pub proof fn law_tokens_come_back(b: Bucket, rate: u32, now: u64)
    ensures
        refilled(None, rate, now) == rate * 1_000_000_000,
        now >= b.last && b.tokens + (now - b.last) * rate <= rate * 1_000_000_000 ==> refilled(
            Some(b),
            rate,
            now,
        ) == b.tokens + (now - b.last) * rate,
        now >= b.last && b.tokens + (now - b.last) * rate >= rate * 1_000_000_000 ==> refilled(
            Some(b),
            rate,
            now,
        ) == rate * 1_000_000_000,
        now < b.last && b.tokens <= rate * 1_000_000_000 ==> refilled(Some(b), rate, now)
            == b.tokens,
        now < b.last && b.tokens >= rate * 1_000_000_000 ==> refilled(Some(b), rate, now) == rate
            * 1_000_000_000,
{
    assert(now == b.last ==> (now - b.last) * rate == 0) by (nonlinear_arith);
    assert(0int * rate == 0) by (nonlinear_arith);
}

/// A request is allowed where a whole token is there, and takes it; otherwise it is refused and
/// takes nothing. At a rate of zero every request is allowed, and no bucket changes.
pub proof fn law_a_request_takes_a_token(b: Option<Bucket>, rate: u32, now: u64)
    ensures
        rate == 0 ==> is_allowed(b, rate, now) && after_request(b, rate, now) == b,
        rate > 0 ==> (is_allowed(b, rate, now) <==> refilled(b, rate, now) >= 1_000_000_000),
        rate > 0 ==> (after_request(b, rate, now) matches Some(a) && a.last == now && a.tokens
            == refilled(b, rate, now) - (if is_allowed(b, rate, now) {
            1_000_000_000int
        } else {
            0int
        })),
{
    lemma_refilled_bounds(b, rate, now);
}

/// A request of one peer changes the bucket of that peer as it should, and no other.
pub proof fn law_peers_are_limited_apart(
    buckets: Map<Seq<char>, Bucket>,
    peer: Seq<char>,
    other: Seq<char>,
    rate: u32,
    now: u64,
)
    ensures
        ({
            let after = buckets_after(buckets, peer, rate, now);
            &&& other != peer ==> (after.dom().contains(other) <==> buckets.dom().contains(other))
            &&& other != peer && buckets.dom().contains(other) ==> after[other] == buckets[other]
            &&& rate == 0 ==> after == buckets
            &&& rate > 0 ==> after.dom().contains(peer) && Some(after[peer]) == after_request(
                if buckets.dom().contains(peer) {
                    Some(buckets[peer])
                } else {
                    None
                },
                rate,
                now,
            )
        }),
        bucket_of(buckets, peer) == (if buckets.dom().contains(peer) {
            Some(buckets[peer])
        } else {
            None
        }),
{
}

} // verus!
