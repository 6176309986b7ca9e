//! The latency router: per provider, latencies are collected in windows, the
//! percentiles of each full window are kept, and asks of providers whose 95th
//! percentile is above a bid's latency ceiling are dropped.
//!
//! Latencies are in milliseconds, and time is a reading of a monotonic clock
//! in milliseconds, handed in by the caller.

use vstd::prelude::*;
use vstd::hash_map::StringHashMap;
use vstd::relations::sorted_by;
use vstd::relations::total_ordering;
use vstd::seq_lib::group_to_multiset_ensures;
use vstd::seq_lib::lemma_sorted_unique;
use vstd::seq_lib::to_multiset_build;
use vstd::seq_lib::to_multiset_insert;
use crate::circuit_breaker::CircuitBreaker;
use crate::circuit_breaker::admitted_asks;
use crate::circuit_breaker::filter_admitted;
use crate::orderbook::Ask;
use crate::orderbook::Bid;
use crate::orderbook::OrderBook;
use crate::orderbook::is_candidate_list;

verus! {

/// The number of samples after which the percentile is taken anew.
pub const WINDOW: usize = 100;

/// Each percentile of a provider before its first full window.
pub const DEFAULT_PERCENTILE: u64 = 100;

/// Milliseconds after which statistics without a new sample are stale.
pub const STATS_STALE_AFTER: u64 = 300_000;

/// The latency statistics of one provider.
#[derive(Debug)]
pub struct LatencyStats {
    p50_latency: u64,
    p95_latency: u64,
    p99_latency: u64,
    samples: Vec<u64>,
    last_update: u64,
}

/// What latency statistics hold: the percentiles of the last full window, the
/// samples of the window that is being filled, and the clock reading of the
/// last sample.
pub struct StatsView {
    pub p50_latency: u64,
    pub p95_latency: u64,
    pub p99_latency: u64,
    pub samples: Seq<u64>,
    pub last_update: u64,
}

/// The latency metrics of one provider over a window of time.
#[derive(Clone, Copy, Debug)]
pub struct LatencyMetrics {
    pub p50_ms: u64,
    pub p95_ms: u64,
    pub p99_ms: u64,
    /// The number of samples in the window that is being filled.
    pub samples: u64,
    pub window_start: u64,
    pub window_end: u64,
}

/// The samples in ascending order.
pub open spec fn ascending(samples: Seq<u64>) -> Seq<u64> {
    samples.sort_by(|a: u64, b: u64| a <= b)
}

/// The place of a percentile among `n` ascending samples: `percent`
/// hundredths of `n`, rounded down.
pub open spec fn percentile_index(n: nat, percent: nat) -> int {
    ((n * percent) / 100) as int
}

/// The statistics of a provider first seen at `now`.
pub open spec fn first_stats(now: u64) -> StatsView {
    StatsView {
        p50_latency: DEFAULT_PERCENTILE,
        p95_latency: DEFAULT_PERCENTILE,
        p99_latency: DEFAULT_PERCENTILE,
        samples: Seq::<u64>::empty(),
        last_update: now,
    }
}

/// The statistics after one more sample at `now`: where the sample fills the
/// window, the percentiles are taken from the window in ascending order and
/// the window is emptied.
pub open spec fn after_sample(stats: StatsView, latency: u64, now: u64) -> StatsView {
    let all = stats.samples.push(latency);
    if all.len() >= WINDOW {
        StatsView {
            p50_latency: ascending(all)[percentile_index(all.len(), 50)],
            p95_latency: ascending(all)[percentile_index(all.len(), 95)],
            p99_latency: ascending(all)[percentile_index(all.len(), 99)],
            samples: Seq::<u64>::empty(),
            last_update: now,
        }
    } else {
        StatsView {
            p50_latency: stats.p50_latency,
            p95_latency: stats.p95_latency,
            p99_latency: stats.p99_latency,
            samples: all,
            last_update: now,
        }
    }
}

/// The metrics of statistics over the `window` seconds before `now`.
pub open spec fn metrics_of(stats: StatsView, window: u64, now: u64) -> LatencyMetrics {
    LatencyMetrics {
        p50_ms: stats.p50_latency,
        p95_ms: stats.p95_latency,
        p99_ms: stats.p99_latency,
        samples: stats.samples.len() as u64,
        window_start: if now >= window {
            (now - window) as u64
        } else {
            0
        },
        window_end: now,
    }
}

/// The statistics had no sample for more than five minutes before `now`.
pub open spec fn stale_at(stats: StatsView, now: u64) -> bool {
    now - stats.last_update > STATS_STALE_AFTER
}

/// `<=` on `u64` is a total order.
pub proof fn lemma_le_is_total()
    ensures
        total_ordering(|a: u64, b: u64| a <= b),
{
}

/// The same samples in ascending order.
pub fn sort_samples(samples: &Vec<u64>) -> (r: Vec<u64>)
    ensures
        r@ == ascending(samples@),
        r@.len() == samples@.len(),
{
    broadcast use group_to_multiset_ensures;

    let ghost leq = |a: u64, b: u64| a <= b;
    let mut out: Vec<u64> = Vec::new();
    let mut i: usize = 0;
    proof {
        assert(samples@.take(0) =~= Seq::<u64>::empty());
    }
    while i < samples.len()
        invariant
            i <= samples.len(),
            forall|a: int, b: int| 0 <= a <= b < out@.len() ==> out@[a] <= out@[b],
            out@.to_multiset() == samples@.take(i as int).to_multiset(),
            out@.len() == i,
        decreases samples.len() - i,
    {
        let x: u64 = samples[i];
        let mut pos: usize = 0;
        while pos < out.len() && out[pos] <= x
            invariant
                pos <= out.len(),
                forall|k: int| 0 <= k < pos ==> out@[k] <= x,
            decreases out.len() - pos,
        {
            pos += 1;
        }
        let ghost before = out@;
        out.insert(pos, x);
        proof {
            samples@.lemma_take_succ_push(i as int);
            assert(out@ == before.insert(pos as int, x));
            to_multiset_insert(before, pos as int, x);
            to_multiset_build(samples@.take(i as int), x);
            assert(samples@.take(i + 1).to_multiset() == out@.to_multiset());
            assert forall|a: int, b: int| 0 <= a <= b < out@.len() implies out@[a] <= out@[b] by {
                if a < pos && b > pos {
                    assert(before[a] <= before[b - 1]);
                } else if a < pos && b < pos {
                    assert(before[a] <= before[b]);
                } else if a > pos {
                    assert(before[a - 1] <= before[b - 1]);
                } else if a == pos && b > pos {
                    assert(before[pos as int] <= before[b - 1]);
                }
            }
        }
        i += 1;
    }
    proof {
        assert(samples@.take(samples.len() as int) =~= samples@);
        lemma_le_is_total();
        samples@.lemma_sort_by_ensures(leq);
        assert(sorted_by(out@, leq));
        lemma_sorted_unique(out@, samples@.sort_by(leq), leq);
    }
    out
}

impl View for LatencyStats {
    type V = StatsView;

    closed spec fn view(&self) -> StatsView {
        StatsView {
            p50_latency: self.p50_latency,
            p95_latency: self.p95_latency,
            p99_latency: self.p99_latency,
            samples: self.samples@,
            last_update: self.last_update,
        }
    }
}

impl Clone for LatencyStats {
    fn clone(&self) -> (r: LatencyStats)
        ensures
            r@ == self@,
    {
        LatencyStats {
            p50_latency: self.p50_latency,
            p95_latency: self.p95_latency,
            p99_latency: self.p99_latency,
            samples: self.samples.clone(),
            last_update: self.last_update,
        }
    }
}

impl LatencyStats {
    /// Statistics without samples, made at `now`.
    pub fn new(now: u64) -> (r: LatencyStats)
        ensures
            r@ == first_stats(now),
    {
        LatencyStats {
            p50_latency: DEFAULT_PERCENTILE,
            p95_latency: DEFAULT_PERCENTILE,
            p99_latency: DEFAULT_PERCENTILE,
            samples: Vec::with_capacity(WINDOW),
            last_update: now,
        }
    }

    /// Takes one more sample at `now`.
    pub fn add_sample(&mut self, latency: u64, now: u64)
        ensures
            final(self)@ == after_sample(old(self)@, latency, now),
    {
        self.samples.push(latency);
        let n: usize = self.samples.len();
        if n >= WINDOW {
            let sorted = sort_samples(&self.samples);
            self.p50_latency = sorted[((n as u128) * 50 / 100) as usize];
            self.p95_latency = sorted[((n as u128) * 95 / 100) as usize];
            self.p99_latency = sorted[((n as u128) * 99 / 100) as usize];
            self.samples.clear();
        }
        self.last_update = now;
    }

    /// Whether the statistics had no sample for more than five minutes.
    pub fn is_stale(&self, now: u64) -> (r: bool)
        ensures
            r == stale_at(self@, now),
    {
        if now >= self.last_update {
            now - self.last_update > STATS_STALE_AFTER
        } else {
            false
        }
    }

    /// The 95th percentile of the last full window.
    pub fn p95_latency(&self) -> (r: u64)
        ensures
            r == self@.p95_latency,
    {
        self.p95_latency
    }

    /// The metrics over the `window` seconds before `now`.
    pub fn metrics(&self, window: u64, now: u64) -> (r: LatencyMetrics)
        ensures
            r == metrics_of(self@, window, now),
    {
        LatencyMetrics {
            p50_ms: self.p50_latency,
            p95_ms: self.p95_latency,
            p99_ms: self.p99_latency,
            samples: self.samples.len() as u64,
            window_start: if now >= window {
                now - window
            } else {
                0
            },
            window_end: now,
        }
    }

    /// The number of samples in the window that is being filled.
    pub fn sample_count(&self) -> (r: usize)
        ensures
            r == self@.samples.len(),
    {
        self.samples.len()
    }

    /// The clock reading of the last sample.
    pub fn last_update(&self) -> (r: u64)
        ensures
            r == self@.last_update,
    {
        self.last_update
    }
}

/// The latency router over all providers.
pub struct LatencyRouter {
    stats: StringHashMap<LatencyStats>,
}

/// The statistics of provider `p` in `stats`, or those of a provider first
/// seen at `now`.
pub open spec fn stats_of(stats: Map<Seq<char>, StatsView>, p: Seq<char>, now: u64) -> StatsView {
    if stats.contains_key(p) {
        stats[p]
    } else {
        first_stats(now)
    }
}

/// The router lets an ask pass at `now`: it has no statistics of the provider,
/// or stale ones, or the provider's percentile is within `max_latency`.
pub open spec fn passes(
    stats: Map<Seq<char>, StatsView>,
    a: Ask,
    max_latency: u64,
    now: u64,
) -> bool {
    let p = a.provider_id@;
    !stats.contains_key(p) || stale_at(stats[p], now) || stats[p].p95_latency <= max_latency
}

impl LatencyRouter {
    /// The statistics of each provider seen so far.
    pub closed spec fn stats(self) -> Map<Seq<char>, StatsView> {
        self.stats@.map_values(|s: LatencyStats| s@)
    }

    /// A router that has seen no provider yet.
    pub fn new() -> (r: LatencyRouter)
        ensures
            r.stats() == Map::<Seq<char>, StatsView>::empty(),
    {
        let r = LatencyRouter { stats: StringHashMap::new() };
        proof {
            assert(r.stats() =~= Map::<Seq<char>, StatsView>::empty());
        }
        r
    }

    /// Takes one more sample of the provider's latency at `now`.
    pub fn record_latency(&mut self, provider_id: &str, latency: u64, now: u64)
        ensures
            final(self).stats() == old(self).stats().insert(
                provider_id@,
                after_sample(stats_of(old(self).stats(), provider_id@, now), latency, now),
            ),
    {
        let mut provider_stats = match self.stats.get(provider_id) {
            Some(s) => s.clone(),
            None => LatencyStats::new(now),
        };
        provider_stats.add_sample(latency, now);
        self.stats.insert(String::from_str(provider_id), provider_stats);
        proof {
            assert(final(self).stats() =~= old(self).stats().insert(
                provider_id@,
                after_sample(stats_of(old(self).stats(), provider_id@, now), latency, now),
            ));
        }
    }

    /// The latency metrics of the provider over the `window` seconds before
    /// `now`; those of a provider without samples where it is not known. Both
    /// are in seconds since the epoch.
    pub fn get_metrics(&self, provider_id: &str, window: u64, now: u64) -> (r: LatencyMetrics)
        ensures
            r == metrics_of(stats_of(self.stats(), provider_id@, 0), window, now),
    {
        match self.stats.get(provider_id) {
            Some(provider_stats) => provider_stats.metrics(window, now),
            None => LatencyStats::new(0).metrics(window, now),
        }
    }

    /// Whether the router lets the ask pass at `now`.
    pub fn lets_pass(&self, ask: &Ask, max_latency: u64, now: u64) -> (r: bool)
        ensures
            r == passes(self.stats(), *ask, max_latency, now),
    {
        match self.stats.get(ask.provider_id.as_str()) {
            Some(provider_stats) => {
                if provider_stats.is_stale(now) {
                    true
                } else {
                    provider_stats.p95_latency() <= max_latency
                }
            },
            None => true,
        }
    }

    /// Drops the asks of providers whose percentile is above `max_latency`;
    /// asks of providers without statistics, or with stale ones, stay.
    pub fn filter_by_latency(&self, asks: &mut Vec<Ask>, max_latency: u64, now: u64)
        ensures
            final(asks)@ == old(asks)@.filter(
                |a: Ask| passes(self.stats(), a, max_latency, now),
            ),
    {
        let ghost keep = |a: Ask| passes(self.stats(), a, max_latency, now);
        let mut out: Vec<Ask> = Vec::new();
        let mut i: usize = 0;
        proof {
            reveal(Seq::filter);
            assert(asks@.take(0) =~= Seq::<Ask>::empty());
        }
        while i < asks.len()
            invariant
                i <= asks.len(),
                asks@ == old(asks)@,
                keep == (|a: Ask| passes(self.stats(), a, max_latency, now)),
                out@ == asks@.take(i as int).filter(keep),
            decreases asks.len() - i,
        {
            proof {
                asks@.lemma_take_succ_push(i as int);
                asks@.take(i as int).lemma_filter_push(asks@[i as int], keep);
            }
            if self.lets_pass(&asks[i], max_latency, now) {
                out.push(asks[i].clone());
            }
            i += 1;
        }
        proof {
            assert(asks@.take(asks.len() as int) =~= asks@);
        }
        *asks = out;
    }
}

impl OrderBook {
    /// The candidates of the bid among `asks` at `now`, without those whose
    /// provider the breaker refuses, and without those whose provider's
    /// latency percentile is above the bid's latency ceiling, both at the
    /// clock reading `clock`.
    pub fn find_matches_with_routing(
        &self,
        bid: &Bid,
        asks: &Vec<Ask>,
        now: u64,
        circuit_breaker: &mut CircuitBreaker,
        latency_router: &LatencyRouter,
        clock: u64,
    ) -> (r: Vec<Ask>)
        ensures
            final(circuit_breaker).same_settings(*old(circuit_breaker)),
            exists|candidates: Seq<Ask>|
                {
                    let admitted = #[trigger] admitted_asks(
                        old(circuit_breaker).providers(),
                        candidates,
                        clock,
                        old(circuit_breaker).reset_timeout(),
                        old(circuit_breaker).half_open_timeout(),
                    );
                    &&& is_candidate_list(
                        candidates,
                        asks@,
                        *bid,
                        now,
                        self.spec_stale_threshold(),
                    )
                    &&& final(circuit_breaker).providers() == admitted.0
                    &&& r@ == admitted.1.filter(
                        |a: Ask| passes(latency_router.stats(), a, bid.max_latency as u64, clock),
                    )
                },
    {
        let candidates = self.candidates(bid, asks, now);
        let mut matches = filter_admitted(&candidates, circuit_breaker, clock);
        latency_router.filter_by_latency(&mut matches, bid.max_latency as u64, clock);
        matches
    }
}

} // verus!
