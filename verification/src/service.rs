//! The match pipeline: a bid is decoded, its candidates are taken from the
//! order book, the admission policies thin them out, the best survivor is
//! selected, and the client's credits are debited for it.
//!
//! The service reads nothing and writes nothing itself. The caller hands in
//! what the index store holds (the asks, the client's balance) and the time,
//! and carries out the writes that a successful match hands back.

use vstd::prelude::*;
use crate::circuit_breaker::CircuitBreaker;
use crate::circuit_breaker::CircuitStatus;
use crate::circuit_breaker::health_of;
use crate::circuit_breaker::ProviderHealth;
use crate::circuit_breaker::admitted_asks;
use crate::circuit_breaker::filter_admitted;
use crate::circuit_breaker::lemma_admitted_are_asks;
use crate::decimal::Decimal;
use crate::decimal::decimal_difference;
use crate::decimal::decimal_of_text;
use crate::decimal::parts_value;
use crate::error::MatchError;
use crate::latency::LatencyMetrics;
use crate::latency::LatencyRouter;
use crate::latency::metrics_of;
use crate::latency::stats_of;
use crate::latency::StatsView;
use crate::latency::passes;
use crate::ledger::Debit;
use crate::ledger::debit_outcome;
use crate::ledger::stored_balance;
use crate::orderbook::Ask;
use crate::orderbook::Bid;
use crate::orderbook::DEFAULT_STALE_THRESHOLD;
use crate::orderbook::OrderBook;
use crate::orderbook::is_best_match;
use crate::orderbook::is_best_of;
use crate::orderbook::is_candidate_list;
use crate::orderbook::matching_asks;
use crate::orderbook::pareto_frontier;
use crate::orderbook::select_best;
use crate::rate_limiter::DEFAULT_CAPACITY;
use crate::rate_limiter::DEFAULT_FILL_RATE;
use crate::rate_limiter::RateLimitStatus;
use crate::rate_limiter::RateLimiter;
use crate::rate_limiter::bucket_of;
use crate::rate_limiter::BucketView;
use crate::rate_limiter::filter_within_rate;
use crate::rate_limiter::granted_asks;
use crate::rate_limiter::lemma_granted_are_asks;
use crate::status::OrderBookStatus;
use crate::status::is_status;
use crate::store::StoreCommand;
use crate::stream::TIMEOUT_FACTOR;
use crate::stream::UpstreamCall;
use crate::stream::forward_request;
use crate::store::publishes;
use vstd::seq_lib::group_to_multiset_ensures;
use vstd::utf8::encode_utf8;

verus! {

/// Failures after which a provider's circuit opens.
pub const DEFAULT_FAILURE_THRESHOLD: u32 = 3;

/// Milliseconds after which an open circuit becomes half open.
pub const DEFAULT_RESET_TIMEOUT: u64 = 30_000;

/// Milliseconds after the last failure from which a half-open circuit admits.
pub const DEFAULT_HALF_OPEN_TIMEOUT: u64 = 5_000;

/// A bid as a client sends it.
#[derive(Debug)]
pub struct BidRequest {
    pub model: String,
    pub prompt: String,
    pub max_price: String,
    pub max_latency: u32,
    pub user_id: String,
    pub required_credits: String,
}

/// The status of a provider as it publishes it.
#[derive(Debug)]
pub struct ProviderStatusRequest {
    pub provider_id: String,
    pub model: String,
    pub gpu_type: String,
    pub price: String,
    pub max_latency: u32,
    pub available_tokens: u32,
}

/// A match: the ask that was selected, and the debit that was made for it.
#[derive(Debug)]
pub struct MatchOutcome {
    pub chosen: Ask,
    pub debit: Debit,
}

/// The order book with the admission policies around it.
pub struct MatcherService {
    pub order_book: OrderBook,
    pub circuit_breaker: CircuitBreaker,
    pub rate_limiter: RateLimiter,
    pub latency_router: LatencyRouter,
}

/// A bid is refused where its price ceiling is no number, its user id is
/// empty, or its credits are a number below zero.
pub open spec fn bid_is_refused(request: BidRequest) -> bool {
    ||| decimal_of_text(request.max_price@) is None
    ||| request.user_id@.len() == 0
    ||| (decimal_of_text(request.required_credits@) matches Some(c) && parts_value(c) < 0)
}

/// What decoding a bid gives: a bid that is refused gives an invalid
/// argument; any other gives the bid with the time `now`, in which credits
/// that are no number count as not named.
pub open spec fn decoded_bid(
    result: Result<Bid, MatchError>,
    request: BidRequest,
    now: u64,
) -> bool {
    let price = decimal_of_text(request.max_price@);
    let credits = decimal_of_text(request.required_credits@);
    if bid_is_refused(request) {
        result == Err::<Bid, MatchError>(MatchError::InvalidArgument)
    } else {
        &&& result matches Ok(bid)
        &&& bid.model@ == request.model@
        &&& bid.prompt@ == request.prompt@
        &&& Some(bid.max_price.parts()) == price
        &&& bid.max_latency == request.max_latency
        &&& bid.timestamp == now
        &&& bid.user_id@ == request.user_id@
        &&& match credits {
            Some(c) => bid.required_credits matches Some(d) && d.parts() == c,
            None => bid.required_credits is None,
        }
    }
}

/// What decoding a provider's status gives: the price must be a number not
/// below zero, and the ask carries `now` as its heartbeat.
pub open spec fn decoded_ask(
    result: Result<Ask, MatchError>,
    request: ProviderStatusRequest,
    now: u64,
) -> bool {
    match decimal_of_text(request.price@) {
        None => result == Err::<Ask, MatchError>(MatchError::InvalidArgument),
        Some(price) => if parts_value(price) < 0 {
            result == Err::<Ask, MatchError>(MatchError::InvalidArgument)
        } else {
            &&& result matches Ok(ask)
            &&& ask.provider_id@ == request.provider_id@
            &&& ask.model@ == request.model@
            &&& ask.gpu_type@ == request.gpu_type@
            &&& ask.price.parts() == price
            &&& ask.max_latency == request.max_latency
            &&& ask.available_tokens == request.available_tokens
            &&& ask.last_heartbeat == now
        },
    }
}

/// Decodes a bid that arrived at `now`.
pub fn decode_bid(request: &BidRequest, now: u64) -> (result: Result<Bid, MatchError>)
    ensures
        decoded_bid(result, *request, now),
{
    let max_price = match Decimal::from_str(request.max_price.as_str()) {
        Some(price) => price,
        None => {
            return Err(MatchError::InvalidArgument);
        },
    };
    if request.user_id.as_str().unicode_len() == 0 {
        return Err(MatchError::InvalidArgument);
    }
    let required_credits = Decimal::from_str(request.required_credits.as_str());
    if let Some(credits) = required_credits {
        if credits.is_negative() {
            return Err(MatchError::InvalidArgument);
        }
    }
    Ok(
        Bid {
            model: request.model.clone(),
            prompt: request.prompt.clone(),
            max_price,
            max_latency: request.max_latency,
            timestamp: now,
            user_id: request.user_id.clone(),
            required_credits,
        },
    )
}

/// Decodes the status that a provider published at `now`.
pub fn decode_ask(request: &ProviderStatusRequest, now: u64) -> (result: Result<Ask, MatchError>)
    ensures
        decoded_ask(result, *request, now),
{
    let price = match Decimal::from_str(request.price.as_str()) {
        Some(price) => price,
        None => {
            return Err(MatchError::InvalidArgument);
        },
    };
    if price.is_negative() {
        return Err(MatchError::InvalidArgument);
    }
    Ok(
        Ask {
            provider_id: request.provider_id.clone(),
            model: request.model.clone(),
            gpu_type: request.gpu_type.clone(),
            price,
            max_latency: request.max_latency,
            available_tokens: request.available_tokens,
            last_heartbeat: now,
        },
    )
}

/// The credits charged for a match: those that the bid names, else the cost
/// of the chosen ask for the bytes of the bid's prompt. Mantissa and scale.
pub open spec fn charge_of(bid: Bid, chosen: Ask) -> (int, nat) {
    match bid.required_credits {
        Some(credits) => credits.parts(),
        None => (chosen.spec_credit_cost_tenths(encode_utf8(bid.prompt@).len()), 1nat),
    }
}

/// What the admission policies hold: the breaker's providers and settings,
/// the limiter's buckets and settings, and the router's statistics.
pub struct Policies {
    pub providers: Map<Seq<char>, ProviderHealth>,
    pub failure_threshold: u32,
    pub reset_timeout: u64,
    pub half_open_timeout: u64,
    pub buckets: Map<Seq<char>, BucketView>,
    pub capacity: u64,
    pub fill_rate: u64,
    pub stats: Map<Seq<char>, StatsView>,
}

impl Policies {
    /// The candidates whose provider the breaker admits at `clock`, asked in
    /// turn.
    pub open spec fn admitted(self, candidates: Seq<Ask>, clock: u64) -> Seq<Ask> {
        admitted_asks(
            self.providers,
            candidates,
            clock,
            self.reset_timeout,
            self.half_open_timeout,
        ).1
    }

    /// Of the admitted candidates those for whose provider the limiter grants
    /// a token at `clock`, asked in turn.
    pub open spec fn granted(self, candidates: Seq<Ask>, clock: u64) -> Seq<Ask> {
        granted_asks(
            self.buckets,
            self.admitted(candidates, clock),
            self.capacity,
            self.fill_rate,
            clock,
        ).1
    }

    /// The candidates that the policies let through at `clock`: those that
    /// were admitted and granted a token, and whose provider's latency
    /// percentile is within `max_latency`.
    pub open spec fn survivors(self, candidates: Seq<Ask>, max_latency: u64, clock: u64) -> Seq<
        Ask,
    > {
        self.granted(candidates, clock).filter(
            |a: Ask| passes(self.stats, a, max_latency, clock),
        )
    }

    /// The policies after the candidates went through them at `clock`: the
    /// breaker was asked for each candidate, and the limiter for each admitted
    /// one, which took a token where it was granted.
    pub open spec fn after(self, candidates: Seq<Ask>, clock: u64) -> Policies {
        Policies {
            providers: admitted_asks(
                self.providers,
                candidates,
                clock,
                self.reset_timeout,
                self.half_open_timeout,
            ).0,
            buckets: granted_asks(
                self.buckets,
                self.admitted(candidates, clock),
                self.capacity,
                self.fill_rate,
                clock,
            ).0,
            ..self
        }
    }

    /// Every survivor is one of the candidates.
    pub proof fn lemma_survivors_are_candidates(
        self,
        candidates: Seq<Ask>,
        max_latency: u64,
        clock: u64,
        a: Ask,
    )
        requires
            self.survivors(candidates, max_latency, clock).contains(a),
        ensures
            candidates.contains(a),
    {
        let admitted = self.admitted(candidates, clock);
        let granted = self.granted(candidates, clock);
        granted.lemma_filter_contains_rev(|x: Ask| passes(self.stats, x, max_latency, clock), a);
        lemma_granted_are_asks(self.buckets, admitted, self.capacity, self.fill_rate, clock, a);
        lemma_admitted_are_asks(
            self.providers,
            candidates,
            clock,
            self.reset_timeout,
            self.half_open_timeout,
            a,
        );
    }
}

/// What the selection ends in, given the asks that survived the pipeline: no
/// match where none survived, else the best survivor.
pub open spec fn selection_outcome(result: Result<Ask, MatchError>, surviving: Seq<Ask>) -> bool {
    if surviving.len() == 0 {
        result == Err::<Ask, MatchError>(MatchError::NoMatch)
    } else {
        result matches Ok(chosen) && is_best_of(Some(chosen), surviving)
    }
}

/// What a bid ends in, given the asks that survived the pipeline: no match
/// where none survived; else the best survivor is chosen and the charge is
/// debited from the stored balance, and the bid fails as the debit fails.
pub open spec fn match_outcome(
    result: Result<MatchOutcome, MatchError>,
    surviving: Seq<Ask>,
    bid: Bid,
    stored: Option<Seq<char>>,
    now: u64,
) -> bool {
    if surviving.len() == 0 {
        result == Err::<MatchOutcome, MatchError>(MatchError::NoMatch)
    } else {
        exists|chosen: Ask|
            {
                let amount = charge_of(bid, chosen);
                let balance = stored_balance(stored);
                let difference = decimal_difference(balance.0, balance.1, amount.0, amount.1);
                &&& #[trigger] is_best_of(Some(chosen), surviving)
                &&& match result {
                    Ok(outcome) => {
                        &&& outcome.chosen == chosen
                        &&& debit_outcome(
                            Ok::<Debit, MatchError>(outcome.debit),
                            bid.user_id@,
                            amount,
                            difference,
                            chosen.provider_id@,
                            now,
                        )
                    },
                    Err(e) => debit_outcome(
                        Err::<Debit, MatchError>(e),
                        bid.user_id@,
                        amount,
                        difference,
                        chosen.provider_id@,
                        now,
                    ),
                }
            }
    }
}

/// The credits charged for a match: those that the bid names, else the cost
/// of the chosen ask for the bid's prompt.
pub fn charge_for(bid: &Bid, chosen: &Ask) -> (amount: Decimal)
    ensures
        amount.parts() == charge_of(*bid, *chosen),
{
    match bid.required_credits {
        Some(credits) => credits,
        None => chosen.calculate_credit_cost(bid.prompt.as_str().as_bytes().len()),
    }
}

impl MatcherService {
    /// What the admission policies of the service hold.
    pub open spec fn policies(self) -> Policies {
        Policies {
            providers: self.circuit_breaker.providers(),
            failure_threshold: self.circuit_breaker.failure_threshold(),
            reset_timeout: self.circuit_breaker.reset_timeout(),
            half_open_timeout: self.circuit_breaker.half_open_timeout(),
            buckets: self.rate_limiter.buckets(),
            capacity: self.rate_limiter.capacity(),
            fill_rate: self.rate_limiter.fill_rate(),
            stats: self.latency_router.stats(),
        }
    }

    /// A service with the usual settings: asks are stale after 120 seconds, a
    /// circuit opens after 3 failures, resets after 30 seconds and admits
    /// half open after 5, and a bucket holds 100 tokens and gains 10 a second.
    pub fn new() -> (r: MatcherService)
        ensures
            r.order_book.spec_stale_threshold() == DEFAULT_STALE_THRESHOLD,
            r.circuit_breaker.providers() == Map::<Seq<char>, ProviderHealth>::empty(),
            r.circuit_breaker.failure_threshold() == DEFAULT_FAILURE_THRESHOLD,
            r.circuit_breaker.reset_timeout() == DEFAULT_RESET_TIMEOUT,
            r.circuit_breaker.half_open_timeout() == DEFAULT_HALF_OPEN_TIMEOUT,
            r.rate_limiter.buckets() == Map::<Seq<char>, BucketView>::empty(),
            r.rate_limiter.capacity() == DEFAULT_CAPACITY,
            r.rate_limiter.fill_rate() == DEFAULT_FILL_RATE,
            r.latency_router.stats() == Map::<Seq<char>, StatsView>::empty(),
    {
        MatcherService {
            order_book: OrderBook::new(DEFAULT_STALE_THRESHOLD),
            circuit_breaker: CircuitBreaker::new(
                DEFAULT_FAILURE_THRESHOLD,
                DEFAULT_RESET_TIMEOUT,
                DEFAULT_HALF_OPEN_TIMEOUT,
            ),
            rate_limiter: RateLimiter::new(DEFAULT_CAPACITY, DEFAULT_FILL_RATE),
            latency_router: LatencyRouter::new(),
        }
    }

    /// The best candidate of the bid among `asks` at `now`, the admission
    /// policies left aside: none where no ask matches the bid.
    pub fn find_best_match(&self, bid: &Bid, asks: &Vec<Ask>, now: u64) -> (best: Option<Ask>)
        ensures
            is_best_match(best, asks@, *bid, now, self.order_book.spec_stale_threshold()),
    {
        self.order_book.best_candidate(bid, asks, now)
    }

    /// The writes that publish the ask.
    pub fn update_ask(&self, ask: &Ask) -> (commands: Vec<StoreCommand>)
        ensures
            publishes(commands@, *ask),
    {
        self.order_book.add_ask(ask)
    }

    /// Whether the stored balance covers `required_credits`.
    pub fn verify_credits(&self, stored: Option<&str>, required_credits: &Decimal) -> (covered:
        bool)
        ensures
            covered == (parts_value(
                stored_balance(
                    match stored {
                        Some(text) => Some(text@),
                        None => None,
                    },
                ),
            ) >= required_credits.value()),
    {
        self.order_book.verify_credits(stored, required_credits)
    }

    /// Debits `amount` from the stored balance of the user in favour of the
    /// provider.
    pub fn deduct_credits(
        &self,
        user_id: &str,
        stored: Option<&str>,
        amount: &Decimal,
        provider_id: &str,
        now: u64,
    ) -> (result: Result<Debit, MatchError>)
        ensures
            ({
                let balance = stored_balance(
                    match stored {
                        Some(text) => Some(text@),
                        None => None,
                    },
                );
                debit_outcome(
                    result,
                    user_id@,
                    amount.parts(),
                    decimal_difference(
                        balance.0,
                        balance.1,
                        amount.spec_mantissa(),
                        amount.spec_scale(),
                    ),
                    provider_id@,
                    now,
                )
            }),
    {
        self.order_book.deduct_credits(user_id, stored, amount, provider_id, now)
    }

    /// The status of the order book at `now`, from the keys of the asks in
    /// the index store and the asks read under them.
    pub fn get_order_book_status(&self, keys: &Vec<String>, asks: &Vec<Ask>, now: u64) -> (status:
        OrderBookStatus)
        ensures
            is_status(status, keys@, asks@, now, self.order_book.spec_stale_threshold()),
    {
        self.order_book.status(keys, asks, now)
    }

    /// The status of a provider's circuit at the clock reading `clock`.
    pub fn get_circuit_status(&self, provider_id: &str, clock: u64) -> (status: CircuitStatus)
        ensures
            ({
                let h = health_of(self.circuit_breaker.providers(), provider_id@, clock);
                &&& status.state == h.state
                &&& status.failure_count == h.failures
                &&& status.last_failure == h.last_failure
                &&& status.reset_at == if h.last_failure + self.circuit_breaker.reset_timeout()
                    <= u64::MAX {
                    (h.last_failure + self.circuit_breaker.reset_timeout()) as u64
                } else {
                    u64::MAX
                }
            }),
    {
        self.circuit_breaker.get_status(provider_id, clock)
    }

    /// The status of a provider's token bucket at the clock reading `clock`.
    pub fn get_rate_limit_status(&self, provider_id: &str, clock: u64) -> (status: RateLimitStatus)
        ensures
            ({
                let b = bucket_of(
                    self.rate_limiter.buckets(),
                    provider_id@,
                    self.rate_limiter.capacity(),
                    self.rate_limiter.fill_rate(),
                    clock,
                );
                &&& status.remaining_tokens == b.after_refill(clock).level / 1000
                &&& status.tokens_per_second == b.fill_rate
                &&& status.reset_at == b.full_again_at(clock)
                &&& status.is_limited == !b.grants(clock, 1)
            }),
    {
        self.rate_limiter.get_status(provider_id, clock)
    }

    /// The latency metrics of a provider over the `window` seconds before
    /// `now`.
    pub fn get_latency_metrics(&self, provider_id: &str, window: u64, now: u64) -> (metrics:
        LatencyMetrics)
        ensures
            metrics == metrics_of(
                stats_of(self.latency_router.stats(), provider_id@, 0),
                window,
                now,
            ),
    {
        self.latency_router.get_metrics(provider_id, window, now)
    }

    /// Takes the status that a provider published at `now`: the writes that
    /// publish its ask, or why the status is refused.
    pub fn update_provider_status(&self, request: &ProviderStatusRequest, now: u64) -> (result:
        Result<Vec<StoreCommand>, MatchError>)
        ensures
            match result {
                Ok(commands) => exists|ask: Ask|
                    #[trigger] decoded_ask(Ok::<Ask, MatchError>(ask), *request, now) && publishes(
                        commands@,
                        ask,
                    ),
                Err(e) => decoded_ask(Err::<Ask, MatchError>(e), *request, now),
            },
    {
        match decode_ask(request, now) {
            Ok(ask) => Ok(self.order_book.add_ask(&ask)),
            Err(e) => Err(e),
        }
    }

    /// Selects the provider for a bid at `now` among `asks`, which the caller
    /// read from the index store: the candidates of the bid go through the
    /// admission policies at the clock reading `clock`, and the best of those
    /// that they let through is selected.
    pub fn select_provider(&mut self, bid: &Bid, asks: &Vec<Ask>, now: u64, clock: u64) -> (result:
        Result<Ask, MatchError>)
        ensures
            final(self).order_book == old(self).order_book,
            exists|candidates: Seq<Ask>|
                {
                    &&& #[trigger] is_candidate_list(
                        candidates,
                        asks@,
                        *bid,
                        now,
                        old(self).order_book.spec_stale_threshold(),
                    )
                    &&& final(self).policies() == old(self).policies().after(candidates, clock)
                    &&& selection_outcome(
                        result,
                        old(self).policies().survivors(candidates, bid.max_latency as u64, clock),
                    )
                },
            result matches Ok(chosen) ==> chosen.spec_matches(
                *bid,
                now,
                old(self).order_book.spec_stale_threshold(),
            ),
    {
        let candidates = self.order_book.candidates(bid, asks, now);
        let admitted = filter_admitted(&candidates, &mut self.circuit_breaker, clock);
        let granted = filter_within_rate(&admitted, &mut self.rate_limiter, clock);
        let mut routed = granted;
        self.latency_router.filter_by_latency(&mut routed, bid.max_latency as u64, clock);
        let ghost surviving = old(self).policies().survivors(
            candidates@,
            bid.max_latency as u64,
            clock,
        );
        assert(routed@ == surviving);
        let result = match select_best(&routed) {
            None => Err(MatchError::NoMatch),
            Some(chosen) => {
                proof {
                    assert(surviving.contains(chosen));
                    old(self).policies().lemma_survivors_are_candidates(
                        candidates@,
                        bid.max_latency as u64,
                        clock,
                        chosen,
                    );
                }
                Ok(chosen)
            },
        };
        proof {
            assert(final(self).policies() == old(self).policies().after(candidates@, clock));
            assert(is_candidate_list(
                candidates@,
                asks@,
                *bid,
                now,
                old(self).order_book.spec_stale_threshold(),
            ));
        }
        result
    }

    /// Matches a bid at `now` against `asks`, which the caller read from the
    /// index store together with the stored balance of the bid's user: the
    /// provider is selected as `select_provider` does, and the charge is
    /// debited for it.
    pub fn match_bid(
        &mut self,
        bid: &Bid,
        asks: &Vec<Ask>,
        stored: Option<&str>,
        now: u64,
        clock: u64,
    ) -> (result: Result<MatchOutcome, MatchError>)
        ensures
            final(self).order_book == old(self).order_book,
            exists|candidates: Seq<Ask>|
                {
                    &&& #[trigger] is_candidate_list(
                        candidates,
                        asks@,
                        *bid,
                        now,
                        old(self).order_book.spec_stale_threshold(),
                    )
                    &&& final(self).policies() == old(self).policies().after(candidates, clock)
                    &&& match_outcome(
                        result,
                        old(self).policies().survivors(candidates, bid.max_latency as u64, clock),
                        *bid,
                        match stored {
                            Some(text) => Some(text@),
                            None => None,
                        },
                        now,
                    )
                },
            result matches Ok(outcome) ==> outcome.chosen.spec_matches(
                *bid,
                now,
                old(self).order_book.spec_stale_threshold(),
            ),
    {
        match self.select_provider(bid, asks, now, clock) {
            Ok(chosen) => {
                let amount = charge_for(bid, &chosen);
                let debited = self.order_book.deduct_credits(
                    bid.user_id.as_str(),
                    stored,
                    &amount,
                    chosen.provider_id.as_str(),
                    now,
                );
                let result = match debited {
                    Ok(debit) => Ok(MatchOutcome { chosen, debit }),
                    Err(e) => Err(e),
                };
                result
            },
            Err(e) => Err(e),
        }
    }

    /// What taking a bid changes and ends in. A bid that cannot be decoded
    /// ends in an invalid argument and changes nothing; any other is matched
    /// as `match_bid` does.
    pub open spec fn submitted(
        self,
        before: MatcherService,
        request: BidRequest,
        asks: Seq<Ask>,
        stored: Option<Seq<char>>,
        now: u64,
        clock: u64,
        result: Result<MatchOutcome, MatchError>,
    ) -> bool {
        &&& self.order_book == before.order_book
        &&& if bid_is_refused(request) {
            &&& result == Err::<MatchOutcome, MatchError>(MatchError::InvalidArgument)
            &&& self.policies() == before.policies()
        } else {
            exists|bid: Bid, candidates: Seq<Ask>|
                {
                    &&& decoded_bid(Ok::<Bid, MatchError>(bid), request, now)
                    &&& #[trigger] is_candidate_list(
                        candidates,
                        asks,
                        bid,
                        now,
                        before.order_book.spec_stale_threshold(),
                    )
                    &&& self.policies() == before.policies().after(candidates, clock)
                    &&& match_outcome(
                        result,
                        before.policies().survivors(candidates, bid.max_latency as u64, clock),
                        bid,
                        stored,
                        now,
                    )
                    &&& (result matches Ok(outcome) ==> outcome.chosen.spec_matches(
                        bid,
                        now,
                        before.order_book.spec_stale_threshold(),
                    ))
                }
        }
    }

    /// Takes a bid as a client sent it at `now`: decodes it, and matches it
    /// as `match_bid` does. A bid that cannot be decoded changes nothing.
    pub fn submit_bid(
        &mut self,
        request: &BidRequest,
        asks: &Vec<Ask>,
        stored: Option<&str>,
        now: u64,
        clock: u64,
    ) -> (result: Result<MatchOutcome, MatchError>)
        ensures
            final(self).submitted(
                *old(self),
                *request,
                asks@,
                match stored {
                    Some(text) => Some(text@),
                    None => None,
                },
                now,
                clock,
                result,
            ),
    {
        match decode_bid(request, now) {
            Ok(bid) => {
                let result = self.match_bid(&bid, asks, stored, now, clock);
                result
            },
            Err(e) => Err(e),
        }
    }

    /// Takes a bid whose answer is to be streamed: the bid is taken as
    /// `submit_bid` takes it, and a match comes with the request that is to
    /// be sent to the chosen provider.
    pub fn submit_bid_stream(
        &mut self,
        request: &BidRequest,
        asks: &Vec<Ask>,
        stored: Option<&str>,
        now: u64,
        clock: u64,
    ) -> (result: Result<(MatchOutcome, UpstreamCall), MatchError>)
        ensures
            final(self).submitted(
                *old(self),
                *request,
                asks@,
                match stored {
                    Some(text) => Some(text@),
                    None => None,
                },
                now,
                clock,
                match result {
                    Ok(matched) => Ok(matched.0),
                    Err(e) => Err(e),
                },
            ),
            result matches Ok(matched) ==> {
                &&& matched.1.endpoint@ == matched.0.chosen.provider_id@
                &&& matched.1.model@ == request.model@
                &&& matched.1.prompt@ == request.prompt@
                &&& matched.1.timeout == request.max_latency * TIMEOUT_FACTOR
            },
    {
        match decode_bid(request, now) {
            Ok(bid) => match self.match_bid(&bid, asks, stored, now, clock) {
                Ok(outcome) => {
                    let call = forward_request(&outcome.chosen, &bid);
                    Ok((outcome, call))
                },
                Err(e) => Err(e),
            },
            Err(e) => Err(e),
        }
    }
}

} // verus!
