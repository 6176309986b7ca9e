//! Asks, bids and the order book: which asks match a bid, which of them are
//! on the Pareto frontier over price, latency and tokens, and which one is
//! selected.

use vstd::prelude::*;
use crate::decimal::Decimal;
use crate::decimal::MONEY_SCALE;
use crate::decimal::round_toward_zero;
use crate::text::text_is;
use vstd::seq_lib::group_to_multiset_ensures;
use vstd::seq_lib::to_multiset_build;
use vstd::seq_lib::to_multiset_insert;

verus! {

/// An open offer of a provider to serve a model.
#[derive(Debug)]
pub struct Ask {
    pub provider_id: String,
    pub model: String,
    pub gpu_type: String,
    pub price: Decimal,
    pub max_latency: u32,
    pub available_tokens: u32,
    pub last_heartbeat: u64,
}

/// A request to be matched once against the order book.
#[derive(Debug)]
pub struct Bid {
    pub model: String,
    pub prompt: String,
    pub max_price: Decimal,
    pub max_latency: u32,
    pub timestamp: u64,
    pub user_id: String,
    /// The credits the client offers; where it names none, the cost of the
    /// chosen ask for the prompt is charged.
    pub required_credits: Option<Decimal>,
}

/// One entry of a user's list of credit transactions.
#[derive(Debug)]
pub struct CreditTransaction {
    pub user_id: String,
    pub amount: Decimal,
    pub balance_after: Decimal,
    pub provider_id: String,
    pub timestamp: u64,
    pub transaction_type: String,
}

impl Clone for Ask {
    fn clone(&self) -> (r: Ask)
        ensures
            r == *self,
    {
        Ask {
            provider_id: self.provider_id.clone(),
            model: self.model.clone(),
            gpu_type: self.gpu_type.clone(),
            price: self.price,
            max_latency: self.max_latency,
            available_tokens: self.available_tokens,
            last_heartbeat: self.last_heartbeat,
        }
    }
}

impl Clone for CreditTransaction {
    fn clone(&self) -> (r: CreditTransaction)
        ensures
            r == *self,
    {
        CreditTransaction {
            user_id: self.user_id.clone(),
            amount: self.amount,
            balance_after: self.balance_after,
            provider_id: self.provider_id.clone(),
            timestamp: self.timestamp,
            transaction_type: self.transaction_type.clone(),
        }
    }
}

/// The factor by which a model raises the cost of a prompt.
pub open spec fn model_multiplier(model: Seq<char>) -> int {
    if model == "gpt4"@ {
        2
    } else {
        1
    }
}

/// The factor by which a GPU class raises the cost of a prompt, in tenths.
pub open spec fn gpu_multiplier_tenths(gpu_type: Seq<char>) -> int {
    if gpu_type == "a100"@ {
        15
    } else if gpu_type == "h100"@ {
        20
    } else {
        10
    }
}

impl Ask {
    /// `self` is at least as good as `other` in price, latency and tokens, and
    /// better in one of them.
    pub open spec fn spec_dominates(self, other: Ask) -> bool {
        &&& self.price.value() <= other.price.value()
        &&& self.max_latency <= other.max_latency
        &&& self.available_tokens >= other.available_tokens
        &&& (self.price.value() < other.price.value() || self.max_latency < other.max_latency
            || self.available_tokens > other.available_tokens)
    }

    /// Whether `self` dominates `other`.
    pub fn dominates(&self, other: &Ask) -> (r: bool)
        ensures
            r == self.spec_dominates(*other),
    {
        let price_better = self.price.le(&other.price);
        let latency_better = self.max_latency <= other.max_latency;
        let tokens_better = self.available_tokens >= other.available_tokens;
        (price_better && latency_better && tokens_better) && (self.price.lt(&other.price)
            || self.max_latency < other.max_latency || self.available_tokens
            > other.available_tokens)
    }

    /// The credit cost of a prompt of `prompt_length` characters, in tenths of
    /// a credit: a quarter of the length, rounded down, times the multipliers
    /// of the model and of the GPU class.
    pub open spec fn spec_credit_cost_tenths(self, prompt_length: nat) -> int {
        (prompt_length / 4) * model_multiplier(self.model@) * gpu_multiplier_tenths(
            self.gpu_type@,
        )
    }

    /// The credit cost of a prompt of `prompt_length` characters, cut to eight
    /// fractional digits.
    pub fn calculate_credit_cost(&self, prompt_length: usize) -> (cost: Decimal)
        ensures
            cost.parts() == round_toward_zero(
                self.spec_credit_cost_tenths(prompt_length as nat),
                1,
                MONEY_SCALE as nat,
            ),
            cost.parts() == (self.spec_credit_cost_tenths(prompt_length as nat), 1nat),
    {
        let base: u64 = (prompt_length / 4) as u64;
        let model_factor: u64 = if text_is(&self.model, "gpt4") {
            2
        } else {
            1
        };
        let gpu_tenths: u64 = if text_is(&self.gpu_type, "a100") {
            15
        } else if text_is(&self.gpu_type, "h100") {
            20
        } else {
            10
        };
        assert(base * model_factor * gpu_tenths <= 0x3FFF_FFFF_FFFF_FFFF * 40) by (nonlinear_arith)
            requires
                base <= 0x3FFF_FFFF_FFFF_FFFF,
                model_factor <= 2,
                gpu_tenths <= 20,
        ;
        assert(base * model_factor <= 0x3FFF_FFFF_FFFF_FFFF * 2) by (nonlinear_arith)
            requires
                base <= 0x3FFF_FFFF_FFFF_FFFF,
                model_factor <= 2,
        ;
        let tenths: i128 = (base as i128) * (model_factor as i128) * (gpu_tenths as i128);
        let unrounded = Decimal::new(tenths, 1);
        unrounded.unwrap().round_to_zero(MONEY_SCALE)
    }
}

/// Seconds after which an ask without a heartbeat is stale, unless the order
/// book is given another threshold.
pub const DEFAULT_STALE_THRESHOLD: u64 = 120;

impl Ask {
    /// The last heartbeat is at most `stale_threshold` seconds before `now`.
    pub open spec fn spec_is_fresh(self, now: u64, stale_threshold: u64) -> bool {
        now - self.last_heartbeat <= stale_threshold
    }

    /// Whether the ask is not stale at `now`.
    pub fn is_fresh(&self, now: u64, stale_threshold: u64) -> (r: bool)
        ensures
            r == self.spec_is_fresh(now, stale_threshold),
    {
        if self.last_heartbeat >= now {
            true
        } else {
            now - self.last_heartbeat <= stale_threshold
        }
    }

    /// The ask serves the model of the bid within its price and latency
    /// ceilings, and is not stale at `now`.
    pub open spec fn spec_matches(self, bid: Bid, now: u64, stale_threshold: u64) -> bool {
        &&& self.model@ == bid.model@
        &&& self.price.value() <= bid.max_price.value()
        &&& self.max_latency <= bid.max_latency
        &&& self.spec_is_fresh(now, stale_threshold)
    }

    /// Whether the ask matches the bid at `now`.
    pub fn matches(&self, bid: &Bid, now: u64, stale_threshold: u64) -> (r: bool)
        ensures
            r == self.spec_matches(*bid, now, stale_threshold),
    {
        self.model == bid.model && self.price.le(&bid.max_price) && self.max_latency
            <= bid.max_latency && self.is_fresh(now, stale_threshold)
    }
}

/// The asks that match the bid at `now`, in their order.
pub open spec fn matching_asks(asks: Seq<Ask>, bid: Bid, now: u64, stale_threshold: u64) -> Seq<
    Ask,
> {
    asks.filter(|a: Ask| a.spec_matches(bid, now, stale_threshold))
}

/// Some ask of `asks` dominates `a`.
pub open spec fn dominated_in(a: Ask, asks: Seq<Ask>) -> bool {
    exists|j: int| 0 <= j < asks.len() && #[trigger] asks[j].spec_dominates(a)
}

/// The asks that no ask of `asks` dominates, in their order.
pub open spec fn pareto_frontier(asks: Seq<Ask>) -> Seq<Ask> {
    asks.filter(|a: Ask| !dominated_in(a, asks))
}

/// `a` is not after `b` in the order by price, then latency.
pub open spec fn price_latency_le(a: Ask, b: Ask) -> bool {
    a.price.value() < b.price.value() || (a.price.value() == b.price.value() && a.max_latency
        <= b.max_latency)
}

/// The asks ascend by price, and by latency where prices are equal.
pub open spec fn sorted_by_price_latency(asks: Seq<Ask>) -> bool {
    forall|i: int, j: int| 0 <= i <= j < asks.len() ==> price_latency_le(asks[i], asks[j])
}

/// The candidates of a bid: the Pareto frontier of the matching asks, in
/// ascending order of price and latency.
pub open spec fn is_candidate_list(
    result: Seq<Ask>,
    asks: Seq<Ask>,
    bid: Bid,
    now: u64,
    stale_threshold: u64,
) -> bool {
    &&& sorted_by_price_latency(result)
    &&& result.to_multiset() == pareto_frontier(
        matching_asks(asks, bid, now, stale_threshold),
    ).to_multiset()
}

/// Every ask of a frontier is one of the asks it was taken from, and none of
/// those dominates it.
pub proof fn lemma_frontier_member(asks: Seq<Ask>, a: Ask)
    requires
        pareto_frontier(asks).contains(a),
    ensures
        asks.contains(a),
        !dominated_in(a, asks),
{
    let keep = |x: Ask| !dominated_in(x, asks);
    asks.lemma_filter_contains_rev(keep, a);
    let i = choose|i: int| 0 <= i < asks.filter(keep).len() && asks.filter(keep)[i] == a;
    asks.lemma_filter_pred(keep, i);
}

/// No ask of a Pareto frontier is dominated by another ask of it.
pub proof fn lemma_frontier_undominated(asks: Seq<Ask>, a: Ask, b: Ask)
    requires
        pareto_frontier(asks).contains(a),
        pareto_frontier(asks).contains(b),
    ensures
        !b.spec_dominates(a),
{
    lemma_frontier_member(asks, a);
    lemma_frontier_member(asks, b);
    let j = choose|j: int| 0 <= j < asks.len() && asks[j] == b;
    if b.spec_dominates(a) {
        assert(asks[j].spec_dominates(a));
    }
}

/// Every ask that no other ask dominates is on the frontier.
pub proof fn lemma_frontier_complete(asks: Seq<Ask>, i: int)
    requires
        0 <= i < asks.len(),
        !dominated_in(asks[i], asks),
    ensures
        pareto_frontier(asks).contains(asks[i]),
{
    let keep = |x: Ask| !dominated_in(x, asks);
    asks.lemma_filter_contains(keep, i);
}

/// `a` is not after `b` in the order by price, then latency, then tokens from
/// many to few.
pub open spec fn rank_le(a: Ask, b: Ask) -> bool {
    a.price.value() < b.price.value() || (a.price.value() == b.price.value() && (a.max_latency
        < b.max_latency || (a.max_latency == b.max_latency && a.available_tokens
        >= b.available_tokens)))
}

/// Among asks, one is first in the order by price, latency and tokens.
pub proof fn lemma_least_exists(asks: Seq<Ask>) -> (at: int)
    requires
        asks.len() > 0,
    ensures
        0 <= at < asks.len(),
        forall|j: int| 0 <= j < asks.len() ==> rank_le(asks[at], #[trigger] asks[j]),
    decreases asks.len(),
{
    if asks.len() == 1 {
        0
    } else {
        let rest = asks.drop_last();
        let m = lemma_least_exists(rest);
        assert forall|j: int| 0 <= j < rest.len() implies rank_le(asks[m], #[trigger] asks[j]) by {
            assert(rest[j] == asks[j]);
        }
        if rank_le(asks[m], asks.last()) {
            m
        } else {
            asks.len() - 1
        }
    }
}

/// The frontier of asks is empty only where there are no asks.
pub proof fn lemma_frontier_nonempty(asks: Seq<Ask>)
    ensures
        pareto_frontier(asks).len() == 0 <==> asks.len() == 0,
{
    if asks.len() > 0 {
        let at = lemma_least_exists(asks);
        assert(!dominated_in(asks[at], asks)) by {
            if dominated_in(asks[at], asks) {
                let j = choose|j: int|
                    0 <= j < asks.len() && #[trigger] asks[j].spec_dominates(asks[at]);
                assert(rank_le(asks[at], asks[j]));
            }
        }
        lemma_frontier_complete(asks, at);
    } else {
        asks.lemma_filter_len(|a: Ask| !dominated_in(a, asks));
    }
}

/// Every candidate matches the bid and is dominated by no matching ask.
pub proof fn lemma_candidate_properties(
    result: Seq<Ask>,
    asks: Seq<Ask>,
    bid: Bid,
    now: u64,
    stale_threshold: u64,
    i: int,
)
    requires
        is_candidate_list(result, asks, bid, now, stale_threshold),
        0 <= i < result.len(),
    ensures
        asks.contains(result[i]),
        result[i].spec_matches(bid, now, stale_threshold),
        !dominated_in(result[i], matching_asks(asks, bid, now, stale_threshold)),
        pareto_frontier(matching_asks(asks, bid, now, stale_threshold)).contains(result[i]),
{
    broadcast use group_to_multiset_ensures;

    let fits = |a: Ask| a.spec_matches(bid, now, stale_threshold);
    let matching = matching_asks(asks, bid, now, stale_threshold);
    let frontier = pareto_frontier(matching);
    assert(result.contains(result[i]));
    assert(result.to_multiset().count(result[i]) > 0);
    assert(frontier.contains(result[i]));
    lemma_frontier_member(matching, result[i]);
    asks.lemma_filter_contains_rev(fits, result[i]);
    let k = choose|k: int| 0 <= k < matching.len() && matching[k] == result[i];
    asks.lemma_filter_pred(fits, k);
}

/// Whether `a` is not after `b` in the order by price, then latency.
pub fn comes_before(a: &Ask, b: &Ask) -> (r: bool)
    ensures
        r == price_latency_le(*a, *b),
{
    a.price.lt(&b.price) || (a.price.same_value(&b.price) && a.max_latency <= b.max_latency)
}

/// The asks that match the bid at `now`.
pub fn filter_matching(asks: &Vec<Ask>, bid: &Bid, now: u64, stale_threshold: u64) -> (r: Vec<Ask>)
    ensures
        r@ == matching_asks(asks@, *bid, now, stale_threshold),
{
    let ghost fits = |a: Ask| a.spec_matches(*bid, now, stale_threshold);
    let mut out: Vec<Ask> = Vec::new();
    let mut i: usize = 0;
    proof {
        reveal(Seq::filter);
        assert(asks@.take(0) =~= Seq::<Ask>::empty());
    }
    while i < asks.len()
        invariant
            i <= asks.len(),
            fits == (|a: Ask| a.spec_matches(*bid, now, stale_threshold)),
            out@ == asks@.take(i as int).filter(fits),
        decreases asks.len() - i,
    {
        proof {
            asks@.lemma_take_succ_push(i as int);
            asks@.take(i as int).lemma_filter_push(asks@[i as int], fits);
        }
        if asks[i].matches(bid, now, stale_threshold) {
            out.push(asks[i].clone());
        }
        i += 1;
    }
    proof {
        assert(asks@.take(asks.len() as int) =~= asks@);
    }
    out
}

/// Whether some ask of `asks` dominates `a`.
pub fn is_dominated(a: &Ask, asks: &Vec<Ask>) -> (r: bool)
    ensures
        r == dominated_in(*a, asks@),
{
    let mut j: usize = 0;
    while j < asks.len()
        invariant
            j <= asks.len(),
            forall|k: int| 0 <= k < j ==> !(#[trigger] asks@[k]).spec_dominates(*a),
        decreases asks.len() - j,
    {
        if asks[j].dominates(a) {
            return true;
        }
        j += 1;
    }
    false
}

/// The Pareto frontier of `asks`: the asks that none of them dominates.
pub fn frontier_of(asks: &Vec<Ask>) -> (r: Vec<Ask>)
    ensures
        r@ == pareto_frontier(asks@),
{
    let ghost keep = |a: Ask| !dominated_in(a, asks@);
    let mut out: Vec<Ask> = Vec::new();
    let mut i: usize = 0;
    proof {
        reveal(Seq::filter);
        assert(asks@.take(0) =~= Seq::<Ask>::empty());
    }
    while i < asks.len()
        invariant
            i <= asks.len(),
            keep == (|a: Ask| !dominated_in(a, asks@)),
            out@ == asks@.take(i as int).filter(keep),
        decreases asks.len() - i,
    {
        proof {
            asks@.lemma_take_succ_push(i as int);
            asks@.take(i as int).lemma_filter_push(asks@[i as int], keep);
        }
        if !is_dominated(&asks[i], asks) {
            out.push(asks[i].clone());
        }
        i += 1;
    }
    proof {
        assert(asks@.take(asks.len() as int) =~= asks@);
    }
    out
}

/// The same asks in ascending order of price, and of latency where prices are
/// equal.
pub fn sort_by_price_latency(asks: &Vec<Ask>) -> (r: Vec<Ask>)
    ensures
        sorted_by_price_latency(r@),
        r@.to_multiset() == asks@.to_multiset(),
{
    broadcast use group_to_multiset_ensures;

    let mut out: Vec<Ask> = Vec::new();
    let mut i: usize = 0;
    proof {
        assert(asks@.take(0) =~= Seq::<Ask>::empty());
    }
    while i < asks.len()
        invariant
            i <= asks.len(),
            sorted_by_price_latency(out@),
            out@.to_multiset() == asks@.take(i as int).to_multiset(),
        decreases asks.len() - i,
    {
        let mut pos: usize = 0;
        while pos < out.len() && comes_before(&out[pos], &asks[i])
            invariant
                pos <= out.len(),
                i < asks.len(),
                forall|k: int|
                    0 <= k < pos ==> price_latency_le(#[trigger] out@[k], asks@[i as int]),
            decreases out.len() - pos,
        {
            pos += 1;
        }
        let ghost before = out@;
        out.insert(pos, asks[i].clone());
        proof {
            asks@.lemma_take_succ_push(i as int);
            assert(out@ == before.insert(pos as int, asks@[i as int]));
            to_multiset_insert(before, pos as int, asks@[i as int]);
            to_multiset_build(asks@.take(i as int), asks@[i as int]);
            assert(asks@.take(i + 1).to_multiset() == out@.to_multiset());
            assert forall|a: int, b: int| 0 <= a <= b < out@.len() implies price_latency_le(
                out@[a],
                out@[b],
            ) by {
                if a < pos && b > pos {
                    assert(price_latency_le(before[a], before[b - 1]));
                } else if a < pos && b < pos {
                    assert(price_latency_le(before[a], before[b]));
                } else if a > pos {
                    assert(price_latency_le(before[a - 1], before[b - 1]));
                } else if a == pos && b > pos {
                    assert(!price_latency_le(before[pos as int], asks@[i as int]));
                    assert(price_latency_le(before[pos as int], before[b - 1]));
                }
            }
        }
        i += 1;
    }
    proof {
        assert(asks@.take(asks.len() as int) =~= asks@);
    }
    out
}

/// The first ask of the least price, and among those of the least latency;
/// none where there is no ask.
pub open spec fn is_best_of(best: Option<Ask>, asks: Seq<Ask>) -> bool {
    match best {
        None => asks.len() == 0,
        Some(a) => exists|i: int|
            {
                &&& 0 <= i < asks.len()
                &&& #[trigger] asks[i] == a
                &&& forall|j: int| 0 <= j < asks.len() ==> price_latency_le(a, #[trigger] asks[j])
                &&& forall|j: int| 0 <= j < i ==> !price_latency_le(#[trigger] asks[j], a)
            },
    }
}

/// Picks the ask of the least price, and of the least latency among those of
/// that price; of several such the first.
pub fn select_best(asks: &Vec<Ask>) -> (best: Option<Ask>)
    ensures
        is_best_of(best, asks@),
{
    if asks.len() == 0 {
        return None;
    }
    let mut at: usize = 0;
    let mut j: usize = 1;
    while j < asks.len()
        invariant
            at < j <= asks.len(),
            forall|k: int| 0 <= k < j ==> price_latency_le(asks@[at as int], #[trigger] asks@[k]),
            forall|k: int| 0 <= k < at ==> !price_latency_le(#[trigger] asks@[k], asks@[at as int]),
        decreases asks.len() - j,
    {
        if !comes_before(&asks[at], &asks[j]) {
            at = j;
        }
        j += 1;
    }
    let best = asks[at].clone();
    proof {
        assert(asks@[at as int] == best);
    }
    Some(best)
}

/// The best match of a bid among asks at `now`: the best of its candidates,
/// which matches the bid; none exactly where no ask matches the bid.
pub open spec fn is_best_match(
    best: Option<Ask>,
    asks: Seq<Ask>,
    bid: Bid,
    now: u64,
    stale_threshold: u64,
) -> bool {
    &&& best is None <==> matching_asks(asks, bid, now, stale_threshold).len() == 0
    &&& exists|candidates: Seq<Ask>|
        {
            &&& is_candidate_list(candidates, asks, bid, now, stale_threshold)
            &&& #[trigger] is_best_of(best, candidates)
        }
    &&& best matches Some(a) ==> a.spec_matches(bid, now, stale_threshold)
}

/// The order book: what is read from the index store is judged here, and what
/// is to be written there is decided here.
pub struct OrderBook {
    stale_threshold: u64,
}

impl OrderBook {
    /// An order book whose asks are stale `stale_threshold` seconds after
    /// their last heartbeat.
    pub fn new(stale_threshold: u64) -> (r: OrderBook)
        ensures
            r.spec_stale_threshold() == stale_threshold,
    {
        OrderBook { stale_threshold }
    }

    /// The seconds after which an ask is stale.
    pub closed spec fn spec_stale_threshold(self) -> u64 {
        self.stale_threshold
    }

    /// The seconds after which an ask is stale.
    pub fn stale_threshold(&self) -> (r: u64)
        ensures
            r == self.spec_stale_threshold(),
    {
        self.stale_threshold
    }

    /// The candidates of a bid among `asks`: those that match it at `now` and
    /// that no other matching ask dominates, in ascending order of price and
    /// latency.
    pub fn candidates(&self, bid: &Bid, asks: &Vec<Ask>, now: u64) -> (r: Vec<Ask>)
        ensures
            is_candidate_list(r@, asks@, *bid, now, self.spec_stale_threshold()),
            forall|i: int|
                0 <= i < r@.len() ==> (#[trigger] r@[i]).spec_matches(
                    *bid,
                    now,
                    self.spec_stale_threshold(),
                ),
            forall|i: int, j: int|
                0 <= i < r@.len() && 0 <= j < r@.len() ==> !(#[trigger] r@[j]).spec_dominates(
                    #[trigger] r@[i],
                ),
    {
        let matching = filter_matching(asks, bid, now, self.stale_threshold);
        let frontier = frontier_of(&matching);
        let sorted = sort_by_price_latency(&frontier);
        proof {
            broadcast use group_to_multiset_ensures;

            assert forall|i: int| 0 <= i < sorted@.len() implies (
            #[trigger] sorted@[i]).spec_matches(
                *bid,
                now,
                self.spec_stale_threshold(),
            ) by {
                lemma_candidate_properties(
                    sorted@,
                    asks@,
                    *bid,
                    now,
                    self.spec_stale_threshold(),
                    i,
                );
            }
            assert forall|i: int, j: int|
                0 <= i < sorted@.len() && 0 <= j < sorted@.len() implies !(
                #[trigger] sorted@[j]).spec_dominates(#[trigger] sorted@[i]) by {
                lemma_candidate_properties(
                    sorted@,
                    asks@,
                    *bid,
                    now,
                    self.spec_stale_threshold(),
                    i,
                );
                lemma_candidate_properties(
                    sorted@,
                    asks@,
                    *bid,
                    now,
                    self.spec_stale_threshold(),
                    j,
                );
                lemma_frontier_undominated(matching@, sorted@[i], sorted@[j]);
            }
        }
        sorted
    }

    /// The best candidate of the bid among `asks` at `now`: none where no ask
    /// matches the bid.
    pub fn best_candidate(&self, bid: &Bid, asks: &Vec<Ask>, now: u64) -> (best: Option<Ask>)
        ensures
            is_best_match(best, asks@, *bid, now, self.spec_stale_threshold()),
    {
        let candidates = self.candidates(bid, asks, now);
        let best = select_best(&candidates);
        proof {
            broadcast use group_to_multiset_ensures;

            let matching = matching_asks(asks@, *bid, now, self.spec_stale_threshold());
            lemma_frontier_nonempty(matching);
            assert(candidates@.to_multiset().len() == candidates@.len());
            assert(pareto_frontier(matching).to_multiset().len() == pareto_frontier(
                matching,
            ).len());
            assert(is_best_of(best, candidates@));
        }
        best
    }

    /// The candidates of the bid among `asks` at `now`, each with its credit
    /// cost for a prompt of `prompt_length` characters.
    pub fn find_matches_with_credits(
        &self,
        bid: &Bid,
        asks: &Vec<Ask>,
        prompt_length: usize,
        now: u64,
    ) -> (r: Vec<(Ask, Decimal)>)
        ensures
            is_candidate_list(
                r@.map_values(|pair: (Ask, Decimal)| pair.0),
                asks@,
                *bid,
                now,
                self.spec_stale_threshold(),
            ),
            forall|i: int|
                0 <= i < r@.len() ==> (#[trigger] r@[i]).1.parts() == (
                    r@[i].0.spec_credit_cost_tenths(prompt_length as nat),
                    1nat,
                ),
    {
        let candidates = self.candidates(bid, asks, now);
        let mut out: Vec<(Ask, Decimal)> = Vec::new();
        let mut i: usize = 0;
        while i < candidates.len()
            invariant
                i <= candidates.len(),
                out@.len() == i,
                forall|k: int| 0 <= k < i ==> (#[trigger] out@[k]).0 == candidates@[k],
                forall|k: int|
                    0 <= k < i ==> (#[trigger] out@[k]).1.parts() == (
                        out@[k].0.spec_credit_cost_tenths(prompt_length as nat),
                        1nat,
                    ),
            decreases candidates.len() - i,
        {
            let ask = candidates[i].clone();
            let cost = ask.calculate_credit_cost(prompt_length);
            out.push((ask, cost));
            i += 1;
        }
        proof {
            assert(out@.map_values(|pair: (Ask, Decimal)| pair.0) =~= candidates@);
        }
        out
    }
}

/// The best match of the bid among `asks` at the time of the bid, with asks
/// stale after the usual 120 seconds.
pub fn find_best_match(bid: &Bid, asks: &Vec<Ask>) -> (best: Option<Ask>)
    ensures
        is_best_match(best, asks@, *bid, bid.timestamp, DEFAULT_STALE_THRESHOLD),
{
    OrderBook::new(DEFAULT_STALE_THRESHOLD).best_candidate(bid, asks, bid.timestamp)
}

} // verus!
