//! The circuit breaker: per provider, failures are counted, and a provider
//! that failed too often is shut out until a timeout has passed.
//!
//! Time is a reading of a monotonic clock in milliseconds, handed in by the
//! caller. A reading before the last failure counts as no time passed.

use vstd::prelude::*;
use vstd::hash_map::StringHashMap;
use crate::orderbook::Ask;
use crate::orderbook::Bid;
use crate::orderbook::OrderBook;
use crate::orderbook::is_candidate_list;

verus! {

/// The state of a provider's circuit.
#[derive(Clone, Copy, Debug, PartialEq, Eq, Structural)]
pub enum CircuitState {
    Closed,
    Open,
    HalfOpen,
}

/// What the breaker knows of one provider.
#[derive(Clone, Copy, Debug)]
pub struct ProviderHealth {
    pub failures: u32,
    pub last_failure: u64,
    pub state: CircuitState,
}

/// What the breaker reports of one provider.
#[derive(Clone, Copy, Debug)]
pub struct CircuitStatus {
    pub state: CircuitState,
    pub failure_count: u32,
    /// The clock reading of the last failure.
    pub last_failure: u64,
    /// The clock reading from which an open circuit is reset.
    pub reset_at: u64,
}

/// What happens to a provider: a failure is recorded, or admission is asked
/// for, each at a reading of the clock.
pub enum BreakerEvent {
    Failure(u64),
    Check(u64),
}

/// The milliseconds from `since` to `now`; none where `now` is the earlier.
pub open spec fn elapsed(now: u64, since: u64) -> int {
    if now >= since {
        now - since
    } else {
        0
    }
}

/// The health of a provider seen for the first time at `now`.
pub open spec fn first_seen(now: u64) -> ProviderHealth {
    ProviderHealth { failures: 0, last_failure: now, state: CircuitState::Closed }
}

/// The health of provider `p` in `providers`, or that of a provider first
/// seen at `now`.
pub open spec fn health_of(
    providers: Map<Seq<char>, ProviderHealth>,
    p: Seq<char>,
    now: u64,
) -> ProviderHealth {
    if providers.contains_key(p) {
        providers[p]
    } else {
        first_seen(now)
    }
}

/// The health after one more failure at `now`: the count goes up by one (it
/// stays at the largest `u32`), and the circuit opens where the count has
/// reached the threshold or the circuit was half open.
pub open spec fn after_failure(
    h: ProviderHealth,
    now: u64,
    failure_threshold: u32,
) -> ProviderHealth {
    let failures = if h.failures < u32::MAX {
        (h.failures + 1) as u32
    } else {
        u32::MAX
    };
    ProviderHealth {
        failures,
        last_failure: now,
        state: if failures >= failure_threshold || h.state == CircuitState::HalfOpen {
            CircuitState::Open
        } else {
            h.state
        },
    }
}

/// The health after a success: no failures, and a half-open circuit closes.
pub open spec fn after_success(h: ProviderHealth) -> ProviderHealth {
    ProviderHealth {
        failures: 0,
        last_failure: h.last_failure,
        state: if h.state == CircuitState::HalfOpen {
            CircuitState::Closed
        } else {
            h.state
        },
    }
}

/// Whether a provider of health `h` is admitted at `now`.
pub open spec fn admits(
    h: ProviderHealth,
    now: u64,
    reset_timeout: u64,
    half_open_timeout: u64,
) -> bool {
    match h.state {
        CircuitState::Closed => true,
        CircuitState::Open => elapsed(now, h.last_failure) >= reset_timeout,
        CircuitState::HalfOpen => elapsed(now, h.last_failure) >= half_open_timeout,
    }
}

/// The health after admission was asked for at `now`: an open circuit whose
/// reset timeout has passed becomes half open.
pub open spec fn after_check(h: ProviderHealth, now: u64, reset_timeout: u64) -> ProviderHealth {
    if h.state == CircuitState::Open && elapsed(now, h.last_failure) >= reset_timeout {
        ProviderHealth { state: CircuitState::HalfOpen, ..h }
    } else {
        h
    }
}

/// The health after a row of events.
pub open spec fn after_events(
    h: ProviderHealth,
    events: Seq<BreakerEvent>,
    failure_threshold: u32,
    reset_timeout: u64,
) -> ProviderHealth
    decreases events.len(),
{
    if events.len() == 0 {
        h
    } else {
        let before = after_events(h, events.drop_last(), failure_threshold, reset_timeout);
        match events.last() {
            BreakerEvent::Failure(at) => after_failure(before, at, failure_threshold),
            BreakerEvent::Check(at) => after_check(before, at, reset_timeout),
        }
    }
}

/// The number of failures among the events.
pub open spec fn failures_among(events: Seq<BreakerEvent>) -> nat
    decreases events.len(),
{
    if events.len() == 0 {
        0
    } else {
        failures_among(events.drop_last()) + if events.last() is Failure {
            1nat
        } else {
            0nat
        }
    }
}

/// After `n` failures, with or without checks between them, the count of
/// failures is `n` at least, or has reached the threshold.
pub proof fn lemma_failures_are_counted(
    h: ProviderHealth,
    events: Seq<BreakerEvent>,
    failure_threshold: u32,
    reset_timeout: u64,
)
    ensures
        after_events(h, events, failure_threshold, reset_timeout).failures >= failures_among(events)
            || after_events(h, events, failure_threshold, reset_timeout).failures
            >= failure_threshold,
    decreases events.len(),
{
    if events.len() > 0 {
        lemma_failures_are_counted(h, events.drop_last(), failure_threshold, reset_timeout);
    }
}

/// After `failure_threshold` failures or more without a success between them,
/// the last of them at `at`, whatever was asked between them, the circuit is
/// open, and the provider is refused at every `now` at which the reset timeout
/// has not passed since `at`; being refused changes nothing, so that it is
/// refused until then.
pub proof fn lemma_open_after_threshold(
    h: ProviderHealth,
    events: Seq<BreakerEvent>,
    at: u64,
    now: u64,
    failure_threshold: u32,
    reset_timeout: u64,
    half_open_timeout: u64,
)
    requires
        failures_among(events.push(BreakerEvent::Failure(at))) >= failure_threshold,
        elapsed(now, at) < reset_timeout,
    ensures
        ({
            let tripped = after_events(
                h,
                events.push(BreakerEvent::Failure(at)),
                failure_threshold,
                reset_timeout,
            );
            &&& tripped.state == CircuitState::Open
            &&& tripped.last_failure == at
            &&& !admits(tripped, now, reset_timeout, half_open_timeout)
            &&& after_check(tripped, now, reset_timeout) == tripped
        }),
{
    let all = events.push(BreakerEvent::Failure(at));
    assert(all.drop_last() =~= events);
    lemma_failures_are_counted(h, events, failure_threshold, reset_timeout);
}

/// The circuit breaker over all providers.
pub struct CircuitBreaker {
    providers: StringHashMap<ProviderHealth>,
    failure_threshold: u32,
    reset_timeout: u64,
    half_open_timeout: u64,
}

impl CircuitBreaker {
    /// The health of each provider seen so far.
    pub closed spec fn providers(self) -> Map<Seq<char>, ProviderHealth> {
        self.providers@
    }

    /// The count of failures at which a circuit opens.
    pub closed spec fn failure_threshold(self) -> u32 {
        self.failure_threshold
    }

    /// The milliseconds after the last failure at which an open circuit
    /// becomes half open.
    pub closed spec fn reset_timeout(self) -> u64 {
        self.reset_timeout
    }

    /// The milliseconds after the last failure from which a half-open circuit
    /// admits.
    pub closed spec fn half_open_timeout(self) -> u64 {
        self.half_open_timeout
    }

    /// The breaker keeps its settings from `before`.
    pub open spec fn same_settings(self, before: CircuitBreaker) -> bool {
        &&& self.failure_threshold() == before.failure_threshold()
        &&& self.reset_timeout() == before.reset_timeout()
        &&& self.half_open_timeout() == before.half_open_timeout()
    }

    /// A breaker that knows no provider yet. The timeouts are in milliseconds.
    pub fn new(failure_threshold: u32, reset_timeout: u64, half_open_timeout: u64) -> (r:
        CircuitBreaker)
        ensures
            r.providers() == Map::<Seq<char>, ProviderHealth>::empty(),
            r.failure_threshold() == failure_threshold,
            r.reset_timeout() == reset_timeout,
            r.half_open_timeout() == half_open_timeout,
    {
        CircuitBreaker {
            providers: StringHashMap::new(),
            failure_threshold,
            reset_timeout,
            half_open_timeout,
        }
    }

    /// Records a failure of the provider at `now`.
    pub fn record_failure(&mut self, provider_id: &str, now: u64)
        ensures
            final(self).same_settings(*old(self)),
            final(self).providers() == old(self).providers().insert(
                provider_id@,
                after_failure(
                    health_of(old(self).providers(), provider_id@, now),
                    now,
                    old(self).failure_threshold(),
                ),
            ),
    {
        let health = self.health(provider_id, now);
        let failures: u32 = if health.failures < u32::MAX {
            health.failures + 1
        } else {
            u32::MAX
        };
        let state = if failures >= self.failure_threshold {
            CircuitState::Open
        } else {
            match health.state {
                CircuitState::HalfOpen => CircuitState::Open,
                CircuitState::Open => CircuitState::Open,
                CircuitState::Closed => CircuitState::Closed,
            }
        };
        self.providers.insert(
            String::from_str(provider_id),
            ProviderHealth { failures, last_failure: now, state },
        );
    }

    /// Records a success of the provider. Of a provider never seen nothing is
    /// recorded.
    pub fn record_success(&mut self, provider_id: &str)
        ensures
            final(self).same_settings(*old(self)),
            final(self).providers() == if old(self).providers().contains_key(provider_id@) {
                old(self).providers().insert(
                    provider_id@,
                    after_success(old(self).providers()[provider_id@]),
                )
            } else {
                old(self).providers()
            },
    {
        let known = match self.providers.get(provider_id) {
            Some(h) => Some(*h),
            None => None,
        };
        if let Some(health) = known {
            let state = match health.state {
                CircuitState::HalfOpen => CircuitState::Closed,
                CircuitState::Open => CircuitState::Open,
                CircuitState::Closed => CircuitState::Closed,
            };
            self.providers.insert(
                String::from_str(provider_id),
                ProviderHealth { failures: 0, last_failure: health.last_failure, state },
            );
        }
    }

    /// Whether the provider is admitted at `now`. An open circuit whose reset
    /// timeout has passed becomes half open by this.
    pub fn can_execute(&mut self, provider_id: &str, now: u64) -> (admitted: bool)
        ensures
            final(self).same_settings(*old(self)),
            admitted == admits(
                health_of(old(self).providers(), provider_id@, now),
                now,
                old(self).reset_timeout(),
                old(self).half_open_timeout(),
            ),
            final(self).providers() == old(self).providers().insert(
                provider_id@,
                after_check(
                    health_of(old(self).providers(), provider_id@, now),
                    now,
                    old(self).reset_timeout(),
                ),
            ),
    {
        let health = self.health(provider_id, now);
        let waited: u64 = if now >= health.last_failure {
            now - health.last_failure
        } else {
            0
        };
        let (admitted, state) = match health.state {
            CircuitState::Closed => (true, CircuitState::Closed),
            CircuitState::Open => {
                if waited >= self.reset_timeout {
                    (true, CircuitState::HalfOpen)
                } else {
                    (false, CircuitState::Open)
                }
            },
            CircuitState::HalfOpen => (waited >= self.half_open_timeout, CircuitState::HalfOpen),
        };
        self.providers.insert(
            String::from_str(provider_id),
            ProviderHealth { failures: health.failures, last_failure: health.last_failure, state },
        );
        admitted
    }

    /// The status of the provider at `now`; that of a provider first seen at
    /// `now` where it is not known. Nothing is recorded by this.
    pub fn get_status(&self, provider_id: &str, now: u64) -> (status: CircuitStatus)
        ensures
            ({
                let h = health_of(self.providers(), provider_id@, now);
                &&& status.state == h.state
                &&& status.failure_count == h.failures
                &&& status.last_failure == h.last_failure
                &&& status.reset_at == if h.last_failure + self.reset_timeout() <= u64::MAX {
                    (h.last_failure + self.reset_timeout()) as u64
                } else {
                    u64::MAX
                }
            }),
    {
        let health = self.health(provider_id, now);
        CircuitStatus {
            state: health.state,
            failure_count: health.failures,
            last_failure: health.last_failure,
            reset_at: health.last_failure.saturating_add(self.reset_timeout),
        }
    }

    /// The health of the provider, that of a provider first seen at `now`
    /// where it is not known.
    pub fn health(&self, provider_id: &str, now: u64) -> (h: ProviderHealth)
        ensures
            h == health_of(self.providers(), provider_id@, now),
    {
        match self.providers.get(provider_id) {
            Some(h) => *h,
            None => ProviderHealth { failures: 0, last_failure: now, state: CircuitState::Closed },
        }
    }
}

/// The providers after admission was asked for each of `asks` in turn at
/// `now`, and the asks whose provider was admitted.
pub open spec fn admitted_asks(
    providers: Map<Seq<char>, ProviderHealth>,
    asks: Seq<Ask>,
    now: u64,
    reset_timeout: u64,
    half_open_timeout: u64,
) -> (Map<Seq<char>, ProviderHealth>, Seq<Ask>)
    decreases asks.len(),
{
    if asks.len() == 0 {
        (providers, Seq::<Ask>::empty())
    } else {
        let (before, kept) = admitted_asks(
            providers,
            asks.drop_last(),
            now,
            reset_timeout,
            half_open_timeout,
        );
        let p = asks.last().provider_id@;
        let h = health_of(before, p, now);
        (
            before.insert(p, after_check(h, now, reset_timeout)),
            if admits(h, now, reset_timeout, half_open_timeout) {
                kept.push(asks.last())
            } else {
                kept
            },
        )
    }
}

/// Every admitted ask is one of the asks.
pub proof fn lemma_admitted_are_asks(
    providers: Map<Seq<char>, ProviderHealth>,
    asks: Seq<Ask>,
    now: u64,
    reset_timeout: u64,
    half_open_timeout: u64,
    a: Ask,
)
    requires
        admitted_asks(providers, asks, now, reset_timeout, half_open_timeout).1.contains(a),
    ensures
        asks.contains(a),
    decreases asks.len(),
{
    if asks.len() > 0 {
        let (before, kept) = admitted_asks(
            providers,
            asks.drop_last(),
            now,
            reset_timeout,
            half_open_timeout,
        );
        let all = admitted_asks(providers, asks, now, reset_timeout, half_open_timeout).1;
        let i = choose|i: int| 0 <= i < all.len() && all[i] == a;
        if i < kept.len() {
            assert(kept[i] == a);
            assert(kept.contains(a));
            lemma_admitted_are_asks(
                providers,
                asks.drop_last(),
                now,
                reset_timeout,
                half_open_timeout,
                a,
            );
            let j = choose|j: int| 0 <= j < asks.drop_last().len() && asks.drop_last()[j] == a;
            assert(asks[j] == a);
        } else {
            assert(asks[asks.len() - 1] == a);
        }
    }
}

/// Keeps the asks whose provider the breaker admits at `now`, asking for each
/// in turn.
pub fn filter_admitted(asks: &Vec<Ask>, circuit_breaker: &mut CircuitBreaker, now: u64) -> (r: Vec<
    Ask,
>)
    ensures
        final(circuit_breaker).same_settings(*old(circuit_breaker)),
        (final(circuit_breaker).providers(), r@) == admitted_asks(
            old(circuit_breaker).providers(),
            asks@,
            now,
            old(circuit_breaker).reset_timeout(),
            old(circuit_breaker).half_open_timeout(),
        ),
{
    let mut out: Vec<Ask> = Vec::new();
    let mut i: usize = 0;
    proof {
        assert(asks@.take(0) =~= Seq::<Ask>::empty());
    }
    while i < asks.len()
        invariant
            i <= asks.len(),
            circuit_breaker.same_settings(*old(circuit_breaker)),
            (circuit_breaker.providers(), out@) == admitted_asks(
                old(circuit_breaker).providers(),
                asks@.take(i as int),
                now,
                old(circuit_breaker).reset_timeout(),
                old(circuit_breaker).half_open_timeout(),
            ),
        decreases asks.len() - i,
    {
        proof {
            asks@.lemma_take_succ_push(i as int);
            assert(asks@.take(i + 1).drop_last() =~= asks@.take(i as int));
        }
        if circuit_breaker.can_execute(asks[i].provider_id.as_str(), now) {
            out.push(asks[i].clone());
        }
        i += 1;
    }
    proof {
        assert(asks@.take(asks.len() as int) =~= asks@);
    }
    out
}

impl OrderBook {
    /// The candidates of the bid among `asks` at `now`, without those whose
    /// provider the breaker refuses at the clock reading `clock`.
    pub fn find_matches_with_circuit_breaker(
        &self,
        bid: &Bid,
        asks: &Vec<Ask>,
        now: u64,
        circuit_breaker: &mut CircuitBreaker,
        clock: u64,
    ) -> (r: Vec<Ask>)
        ensures
            final(circuit_breaker).same_settings(*old(circuit_breaker)),
            exists|candidates: Seq<Ask>|
                {
                    &&& is_candidate_list(
                        candidates,
                        asks@,
                        *bid,
                        now,
                        self.spec_stale_threshold(),
                    )
                    &&& (final(circuit_breaker).providers(), r@) == #[trigger] admitted_asks(
                        old(circuit_breaker).providers(),
                        candidates,
                        clock,
                        old(circuit_breaker).reset_timeout(),
                        old(circuit_breaker).half_open_timeout(),
                    )
                },
    {
        let matches = self.candidates(bid, asks, now);
        filter_admitted(&matches, circuit_breaker, clock)
    }
}

} // verus!
