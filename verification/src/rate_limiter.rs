//! The rate limiter: one token bucket per provider.
//!
//! Tokens are whole numbers, the fill rate is in tokens per second, and time
//! is a reading of a monotonic clock in milliseconds, handed in by the caller.
//! A bucket keeps its level in thousandths of a token, so that a refill over
//! any number of milliseconds is exact. A reading before the last update
//! counts as no time passed.

use vstd::prelude::*;
use vstd::hash_map::StringHashMap;
use crate::orderbook::Ask;

verus! {

/// Tokens a bucket holds at most, unless the limiter is given another number.
pub const DEFAULT_CAPACITY: u64 = 100;

/// Tokens a bucket gains per second, unless the limiter is given another
/// number.
pub const DEFAULT_FILL_RATE: u64 = 10;

/// The level of a bucket after a refill over `waited` milliseconds: the level
/// before and a thousandth of the fill rate for each millisecond, capped at
/// the capacity. Levels are in thousandths of a token.
pub open spec fn refilled(level: int, waited: int, capacity: u64, fill_rate: u64) -> int {
    if level + waited * fill_rate >= capacity * 1000 {
        capacity * 1000
    } else {
        level + waited * fill_rate
    }
}

/// The milliseconds after which a bucket that misses `missing` thousandths of
/// a token is full again: the least number of milliseconds in which the fill
/// rate covers them.
pub open spec fn time_to_fill(missing: int, fill_rate: u64) -> int {
    (missing + fill_rate - 1) / (fill_rate as int)
}

/// A token bucket.
#[derive(Clone, Copy, Debug)]
pub struct TokenBucket {
    level: u128,
    last_update: u64,
    capacity: u64,
    fill_rate: u64,
}

/// What a token bucket holds: its level in thousandths of a token, the clock
/// reading of its last refill, its capacity in tokens and its fill rate in
/// tokens per second.
pub struct BucketView {
    pub level: int,
    pub last_update: u64,
    pub capacity: u64,
    pub fill_rate: u64,
}

/// What the limiter reports of one bucket.
#[derive(Clone, Copy, Debug)]
pub struct RateLimitStatus {
    /// The whole tokens that the bucket holds.
    pub remaining_tokens: u64,
    pub tokens_per_second: u64,
    /// The clock reading at which the bucket is full again if nothing is
    /// taken from it; the largest `u64` where it never is.
    pub reset_at: u64,
    /// Whether not even one token is to be had.
    pub is_limited: bool,
}

/// A request to a bucket: the clock reading and the tokens asked for.
pub struct Request {
    pub at: u64,
    pub tokens: u64,
}

impl BucketView {
    /// The level is within the capacity.
    pub open spec fn wf(self) -> bool {
        0 <= self.level <= self.capacity * 1000
    }

    /// A full bucket, made at `now`.
    pub open spec fn full(capacity: u64, fill_rate: u64, now: u64) -> BucketView {
        BucketView { level: capacity * 1000, last_update: now, capacity, fill_rate }
    }

    /// The milliseconds from the last refill to `now`; none where `now` is
    /// the earlier.
    pub open spec fn waited(self, now: u64) -> int {
        if now >= self.last_update {
            now - self.last_update
        } else {
            0
        }
    }

    /// The bucket after a refill at `now`.
    pub open spec fn after_refill(self, now: u64) -> BucketView {
        BucketView {
            level: refilled(self.level, self.waited(now), self.capacity, self.fill_rate),
            last_update: if now >= self.last_update {
                now
            } else {
                self.last_update
            },
            ..self
        }
    }

    /// Whether `tokens` are granted at `at`: after the refill the bucket
    /// holds as many.
    pub open spec fn grants(self, at: u64, tokens: u64) -> bool {
        self.after_refill(at).level >= tokens * 1000
    }

    /// The bucket after `tokens` were asked for at `at`: refilled, and
    /// without the tokens where they were granted.
    pub open spec fn after_request(self, at: u64, tokens: u64) -> BucketView {
        let full = self.after_refill(at);
        if self.grants(at, tokens) {
            BucketView { level: full.level - tokens * 1000, ..full }
        } else {
            full
        }
    }

    /// The bucket after a row of requests.
    pub open spec fn after_requests(self, requests: Seq<Request>) -> BucketView
        decreases requests.len(),
    {
        if requests.len() == 0 {
            self
        } else {
            self.after_requests(requests.drop_last()).after_request(
                requests.last().at,
                requests.last().tokens,
            )
        }
    }

    /// The tokens granted to a row of requests.
    pub open spec fn granted_to(self, requests: Seq<Request>) -> int
        decreases requests.len(),
    {
        if requests.len() == 0 {
            0
        } else {
            let before = self.after_requests(requests.drop_last());
            self.granted_to(requests.drop_last()) + if before.grants(
                requests.last().at,
                requests.last().tokens,
            ) {
                requests.last().tokens as int
            } else {
                0
            }
        }
    }

    /// The clock reading at which the bucket, refilled at `now`, is full
    /// again if nothing is taken from it; the largest `u64` where it never
    /// is, or only later than that.
    pub open spec fn full_again_at(self, now: u64) -> u64 {
        let full = self.after_refill(now);
        let missing = self.capacity * 1000 - full.level;
        if missing == 0 {
            full.last_update
        } else if self.fill_rate == 0 || full.last_update + time_to_fill(missing, self.fill_rate)
            > u64::MAX {
            u64::MAX
        } else {
            (full.last_update + time_to_fill(missing, self.fill_rate)) as u64
        }
    }

    /// A request leaves the bucket well formed, never moves its clock back
    /// nor past the later of its clock and the request, and what it takes is
    /// covered by the level before and the refill.
    pub proof fn lemma_request_is_covered(self, at: u64, tokens: u64)
        requires
            self.wf(),
        ensures
            ({
                let after = self.after_request(at, tokens);
                let taken = if self.grants(at, tokens) {
                    tokens * 1000
                } else {
                    0
                };
                &&& after.wf()
                &&& after.capacity == self.capacity
                &&& after.fill_rate == self.fill_rate
                &&& after.last_update >= self.last_update
                &&& after.last_update == at || after.last_update == self.last_update
                &&& taken + after.level <= self.level + (after.last_update - self.last_update)
                    * self.fill_rate
            }),
    {
        let waited = self.waited(at);
        assert(waited * self.fill_rate >= 0) by (nonlinear_arith)
            requires
                waited >= 0,
                self.fill_rate >= 0,
        ;
    }

    /// Over any row of requests a bucket grants no more than it held at the
    /// start and gained while its clock moved on. All amounts are in
    /// thousandths of a token, the time in milliseconds.
    pub proof fn lemma_consumption_bound(self, requests: Seq<Request>)
        requires
            self.wf(),
        ensures
            ({
                let after = self.after_requests(requests);
                let moved = after.last_update - self.last_update;
                &&& after.wf()
                &&& after.capacity == self.capacity
                &&& after.fill_rate == self.fill_rate
                &&& moved >= 0
                &&& self.granted_to(requests) * 1000 + after.level <= self.level + moved
                    * self.fill_rate
                &&& self.granted_to(requests) * 1000 <= self.capacity * 1000 + moved
                    * self.fill_rate
            }),
        decreases requests.len(),
    {
        if requests.len() > 0 {
            let before = self.after_requests(requests.drop_last());
            self.lemma_consumption_bound(requests.drop_last());
            before.lemma_request_is_covered(requests.last().at, requests.last().tokens);
            let after = self.after_requests(requests);
            let rate = self.fill_rate as int;
            let d1 = before.last_update - self.last_update;
            let d2 = after.last_update - before.last_update;
            assert((d1 + d2) * rate == d1 * rate + d2 * rate) by (nonlinear_arith);
        }
    }

    /// The clock of a bucket never passes the latest request.
    pub proof fn lemma_clock_stays_within(self, requests: Seq<Request>, end: u64)
        requires
            self.wf(),
            self.last_update <= end,
            forall|i: int| 0 <= i < requests.len() ==> (#[trigger] requests[i]).at <= end,
        ensures
            self.after_requests(requests).last_update <= end,
        decreases requests.len(),
    {
        if requests.len() > 0 {
            let rest = requests.drop_last();
            assert forall|i: int| 0 <= i < rest.len() implies (#[trigger] rest[i]).at <= end by {
                assert(rest[i] == requests[i]);
            }
            self.lemma_clock_stays_within(rest, end);
            self.lemma_consumption_bound(rest);
            let last = requests.last();
            assert(last == requests[requests.len() - 1]);
            self.after_requests(rest).lemma_request_is_covered(last.at, last.tokens);
        }
    }

    /// A refill at `first` followed by a refill at `then` is a refill at
    /// `then`.
    pub proof fn lemma_refill_composes(self, first: u64, then: u64)
        requires
            self.wf(),
            self.last_update <= first <= then,
        ensures
            self.after_refill(first).after_refill(then) == self.after_refill(then),
            self.after_refill(first).wf(),
            self.after_refill(first).last_update == first,
    {
        let rate = self.fill_rate as int;
        let g1 = (first - self.last_update) * rate;
        let g2 = (then - first) * rate;
        let g = (then - self.last_update) * rate;
        assert(g == g1 + g2) by (nonlinear_arith)
            requires
                g1 == (first - self.last_update) * rate,
                g2 == (then - first) * rate,
                g == (then - self.last_update) * rate,
        ;
        assert(g1 >= 0 && g2 >= 0) by (nonlinear_arith)
            requires
                g1 == (first - self.last_update) * rate,
                g2 == (then - first) * rate,
                self.last_update <= first <= then,
                rate >= 0,
        ;
    }

    /// A bucket that was refilled at `start` and a bucket that was not treat
    /// requests from `start` on alike.
    pub proof fn lemma_requests_after_refill(self, requests: Seq<Request>, start: u64)
        requires
            self.wf(),
            self.last_update <= start,
            requests.len() > 0,
            forall|i: int| 0 <= i < requests.len() ==> (#[trigger] requests[i]).at >= start,
        ensures
            self.after_refill(start).after_requests(requests) == self.after_requests(requests),
            self.after_refill(start).granted_to(requests) == self.granted_to(requests),
        decreases requests.len(),
    {
        let rest = requests.drop_last();
        let last = requests.last();
        assert(last == requests[requests.len() - 1]);
        self.lemma_refill_composes(start, last.at);
        if rest.len() > 0 {
            assert forall|i: int| 0 <= i < rest.len() implies (#[trigger] rest[i]).at >= start by {
                assert(rest[i] == requests[i]);
            }
            self.lemma_requests_after_refill(rest, start);
        } else {
            let first = self.after_refill(start);
            assert(self.after_requests(rest) == self);
            assert(first.after_requests(rest) == first);
            assert(self.granted_to(rest) == 0);
            assert(first.granted_to(rest) == 0);
        }
    }

    /// Over any interval of time a bucket grants at most its capacity and
    /// the fill rate for the length of the interval: to requests that all
    /// come from `start` to `end`, whatever the bucket did before `start`, it
    /// grants at most the capacity and the fill rate for each millisecond
    /// from `start` to `end`. All amounts are in thousandths of a token.
    pub proof fn lemma_interval_bound(self, requests: Seq<Request>, start: u64, end: u64)
        requires
            self.wf(),
            self.last_update <= start <= end,
            forall|i: int| 0 <= i < requests.len() ==> start <= (#[trigger] requests[i]).at <= end,
        ensures
            self.granted_to(requests) * 1000 <= self.capacity * 1000 + (end - start)
                * self.fill_rate,
    {
        let rate = self.fill_rate as int;
        if requests.len() == 0 {
            assert((end - start) * rate >= 0) by (nonlinear_arith)
                requires
                    start <= end,
                    rate >= 0,
            ;
        } else {
            let first = self.after_refill(start);
            self.lemma_refill_composes(start, end);
            self.lemma_requests_after_refill(requests, start);
            first.lemma_consumption_bound(requests);
            first.lemma_clock_stays_within(requests, end);
            let moved = first.after_requests(requests).last_update - first.last_update;
            assert(moved * rate <= (end - start) * rate) by (nonlinear_arith)
                requires
                    moved <= end - start,
                    rate >= 0,
            ;
        }
    }
}

impl View for TokenBucket {
    type V = BucketView;

    closed spec fn view(&self) -> BucketView {
        BucketView {
            level: self.level as int,
            last_update: self.last_update,
            capacity: self.capacity,
            fill_rate: self.fill_rate,
        }
    }
}

impl TokenBucket {
    #[verifier::type_invariant]
    closed spec fn inv(self) -> bool {
        self.level <= self.capacity * 1000
    }

    /// A full bucket of this capacity, in tokens, and fill rate, in tokens
    /// per second.
    pub fn new(capacity: u64, fill_rate: u64, now: u64) -> (r: TokenBucket)
        ensures
            r@ == BucketView::full(capacity, fill_rate, now),
            r@.wf(),
    {
        TokenBucket { level: (capacity as u128) * 1000, last_update: now, capacity, fill_rate }
    }

    /// Refills the bucket for the time since the last refill.
    pub fn refill(&mut self, now: u64)
        ensures
            final(self)@ == old(self)@.after_refill(now),
            old(self)@.wf(),
            final(self)@.wf(),
    {
        proof {
            use_type_invariant(&*self);
        }
        if now > self.last_update {
            let waited: u64 = now - self.last_update;
            let cap: u128 = (self.capacity as u128) * 1000;
            assert(waited * self.fill_rate <= 0xFFFF_FFFF_FFFF_FFFF * 0xFFFF_FFFF_FFFF_FFFF)
                by (nonlinear_arith)
                requires
                    waited <= 0xFFFF_FFFF_FFFF_FFFF,
                    self.fill_rate <= 0xFFFF_FFFF_FFFF_FFFF,
            ;
            let gain: u128 = (waited as u128) * (self.fill_rate as u128);
            let room: u128 = cap - self.level;
            let level: u128 = if gain >= room {
                cap
            } else {
                self.level + gain
            };
            *self = TokenBucket {
                level,
                last_update: now,
                capacity: self.capacity,
                fill_rate: self.fill_rate,
            };
        } else {
            let ghost waited = old(self)@.waited(now);
            let ghost rate = self.fill_rate as int;
            assert(waited * rate == 0) by (nonlinear_arith)
                requires
                    waited == 0,
            ;
        }
    }

    /// Refills the bucket, then takes `tokens` out of it if it holds as many.
    pub fn try_consume(&mut self, tokens: u64, now: u64) -> (granted: bool)
        ensures
            granted == old(self)@.grants(now, tokens),
            final(self)@ == old(self)@.after_request(now, tokens),
            old(self)@.wf(),
            final(self)@.wf(),
    {
        self.refill(now);
        proof {
            use_type_invariant(&*self);
        }
        let need: u128 = (tokens as u128) * 1000;
        if self.level >= need {
            *self = TokenBucket {
                level: self.level - need,
                last_update: self.last_update,
                capacity: self.capacity,
                fill_rate: self.fill_rate,
            };
            true
        } else {
            false
        }
    }

    /// What is to be reported of the bucket at `now`. The bucket itself stays
    /// as it is.
    pub fn status(&self, now: u64) -> (status: RateLimitStatus)
        ensures
            status.remaining_tokens == self@.after_refill(now).level / 1000,
            status.tokens_per_second == self@.fill_rate,
            status.reset_at == self@.full_again_at(now),
            status.is_limited == !self@.grants(now, 1),
            self@.wf(),
    {
        let mut peek = *self;
        peek.refill(now);
        proof {
            use_type_invariant(&peek);
        }
        let cap: u128 = (peek.capacity as u128) * 1000;
        let missing: u128 = cap - peek.level;
        let reset_at: u64 = if missing == 0 {
            peek.last_update
        } else if peek.fill_rate == 0 {
            u64::MAX
        } else {
            let rate: u128 = peek.fill_rate as u128;
            let wait: u128 = (missing + rate - 1) / rate;
            if wait > (u64::MAX - peek.last_update) as u128 {
                u64::MAX
            } else {
                peek.last_update + (wait as u64)
            }
        };
        RateLimitStatus {
            remaining_tokens: (peek.level / 1000) as u64,
            tokens_per_second: peek.fill_rate,
            reset_at,
            is_limited: peek.level < 1000,
        }
    }

    /// The whole tokens the bucket would hold after a refill at `now`.
    pub fn available(&self, now: u64) -> (tokens: u64)
        ensures
            tokens == self@.after_refill(now).level / 1000,
    {
        self.status(now).remaining_tokens
    }
}

/// The rate limiter over all providers.
pub struct RateLimiter {
    buckets: StringHashMap<TokenBucket>,
    capacity: u64,
    fill_rate: u64,
}

/// The bucket of `key` in `buckets`, or a full bucket made at `now`.
pub open spec fn bucket_of(
    buckets: Map<Seq<char>, BucketView>,
    key: Seq<char>,
    capacity: u64,
    fill_rate: u64,
    now: u64,
) -> BucketView {
    if buckets.contains_key(key) {
        buckets[key]
    } else {
        BucketView::full(capacity, fill_rate, now)
    }
}

impl RateLimiter {
    /// The bucket of each key seen so far.
    pub closed spec fn buckets(self) -> Map<Seq<char>, BucketView> {
        self.buckets@.map_values(|b: TokenBucket| b@)
    }

    /// The capacity of a new bucket, in tokens.
    pub closed spec fn capacity(self) -> u64 {
        self.capacity
    }

    /// The fill rate of a new bucket, in tokens per second.
    pub closed spec fn fill_rate(self) -> u64 {
        self.fill_rate
    }

    /// The limiter keeps its settings from `before`.
    pub open spec fn same_settings(self, before: RateLimiter) -> bool {
        &&& self.capacity() == before.capacity()
        &&& self.fill_rate() == before.fill_rate()
    }

    /// A limiter without buckets. A bucket is made, full, when its key is
    /// first seen.
    pub fn new(capacity: u64, fill_rate: u64) -> (r: RateLimiter)
        ensures
            r.buckets() == Map::<Seq<char>, BucketView>::empty(),
            r.capacity() == capacity,
            r.fill_rate() == fill_rate,
    {
        let r = RateLimiter { buckets: StringHashMap::new(), capacity, fill_rate };
        proof {
            assert(r.buckets() =~= Map::<Seq<char>, BucketView>::empty());
        }
        r
    }

    /// Takes `tokens` from the bucket of `key` if it holds as many after its
    /// refill at `now`.
    pub fn try_acquire(&mut self, key: &str, tokens: u64, now: u64) -> (granted: bool)
        ensures
            final(self).same_settings(*old(self)),
            granted == bucket_of(
                old(self).buckets(),
                key@,
                old(self).capacity(),
                old(self).fill_rate(),
                now,
            ).grants(now, tokens),
            final(self).buckets() == old(self).buckets().insert(
                key@,
                bucket_of(
                    old(self).buckets(),
                    key@,
                    old(self).capacity(),
                    old(self).fill_rate(),
                    now,
                ).after_request(now, tokens),
            ),
    {
        let mut bucket = self.bucket(key, now);
        let granted = bucket.try_consume(tokens, now);
        self.buckets.insert(String::from_str(key), bucket);
        proof {
            assert(final(self).buckets() =~= old(self).buckets().insert(
                key@,
                bucket_of(
                    old(self).buckets(),
                    key@,
                    old(self).capacity(),
                    old(self).fill_rate(),
                    now,
                ).after_request(now, tokens),
            ));
        }
        granted
    }

    /// What is to be reported of the bucket of `key` at `now`; of a key never
    /// seen, what is to be reported of a full bucket. Nothing is taken.
    pub fn get_status(&self, key: &str, now: u64) -> (status: RateLimitStatus)
        ensures
            ({
                let b = bucket_of(self.buckets(), key@, self.capacity(), self.fill_rate(), now);
                &&& status.remaining_tokens == b.after_refill(now).level / 1000
                &&& status.tokens_per_second == b.fill_rate
                &&& status.reset_at == b.full_again_at(now)
                &&& status.is_limited == !b.grants(now, 1)
            }),
    {
        self.bucket(key, now).status(now)
    }

    /// The bucket of `key`, a full one made at `now` where the key was never
    /// seen.
    pub fn bucket(&self, key: &str, now: u64) -> (b: TokenBucket)
        ensures
            b@ == bucket_of(self.buckets(), key@, self.capacity(), self.fill_rate(), now),
    {
        match self.buckets.get(key) {
            Some(b) => *b,
            None => TokenBucket::new(self.capacity, self.fill_rate, now),
        }
    }
}

/// The buckets after one token was asked for each of `asks` in turn at `now`,
/// and the asks for whose provider it was granted.
pub open spec fn granted_asks(
    buckets: Map<Seq<char>, BucketView>,
    asks: Seq<Ask>,
    capacity: u64,
    fill_rate: u64,
    now: u64,
) -> (Map<Seq<char>, BucketView>, Seq<Ask>)
    decreases asks.len(),
{
    if asks.len() == 0 {
        (buckets, Seq::<Ask>::empty())
    } else {
        let (before, kept) = granted_asks(buckets, asks.drop_last(), capacity, fill_rate, now);
        let key = asks.last().provider_id@;
        let bucket = bucket_of(before, key, capacity, fill_rate, now);
        (
            before.insert(key, bucket.after_request(now, 1)),
            if bucket.grants(now, 1) {
                kept.push(asks.last())
            } else {
                kept
            },
        )
    }
}

/// Every ask that was granted a token is one of the asks.
pub proof fn lemma_granted_are_asks(
    buckets: Map<Seq<char>, BucketView>,
    asks: Seq<Ask>,
    capacity: u64,
    fill_rate: u64,
    now: u64,
    a: Ask,
)
    requires
        granted_asks(buckets, asks, capacity, fill_rate, now).1.contains(a),
    ensures
        asks.contains(a),
    decreases asks.len(),
{
    if asks.len() > 0 {
        let (before, kept) = granted_asks(buckets, asks.drop_last(), capacity, fill_rate, now);
        let all = granted_asks(buckets, asks, capacity, fill_rate, now).1;
        let i = choose|i: int| 0 <= i < all.len() && all[i] == a;
        if i < kept.len() {
            assert(kept[i] == a);
            assert(kept.contains(a));
            lemma_granted_are_asks(buckets, asks.drop_last(), capacity, fill_rate, now, a);
            let j = choose|j: int| 0 <= j < asks.drop_last().len() && asks.drop_last()[j] == a;
            assert(asks[j] == a);
        } else {
            assert(asks[asks.len() - 1] == a);
        }
    }
}

/// Keeps the asks for whose provider the limiter grants one token at `now`,
/// asking for each in turn. Each grant takes the token.
pub fn filter_within_rate(asks: &Vec<Ask>, rate_limiter: &mut RateLimiter, now: u64) -> (r: Vec<
    Ask,
>)
    ensures
        final(rate_limiter).same_settings(*old(rate_limiter)),
        (final(rate_limiter).buckets(), r@) == granted_asks(
            old(rate_limiter).buckets(),
            asks@,
            old(rate_limiter).capacity(),
            old(rate_limiter).fill_rate(),
            now,
        ),
{
    let mut out: Vec<Ask> = Vec::new();
    let mut i: usize = 0;
    proof {
        assert(asks@.take(0) =~= Seq::<Ask>::empty());
    }
    while i < asks.len()
        invariant
            i <= asks.len(),
            rate_limiter.same_settings(*old(rate_limiter)),
            (rate_limiter.buckets(), out@) == granted_asks(
                old(rate_limiter).buckets(),
                asks@.take(i as int),
                old(rate_limiter).capacity(),
                old(rate_limiter).fill_rate(),
                now,
            ),
        decreases asks.len() - i,
    {
        proof {
            asks@.lemma_take_succ_push(i as int);
            assert(asks@.take(i + 1).drop_last() =~= asks@.take(i as int));
        }
        if rate_limiter.try_acquire(asks[i].provider_id.as_str(), 1, now) {
            out.push(asks[i].clone());
        }
        i += 1;
    }
    proof {
        assert(asks@.take(asks.len() as int) =~= asks@);
    }
    out
}

} // verus!
