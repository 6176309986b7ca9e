//! The status of the order book: how many asks the index store holds, how
//! many providers are active, how deep each model's book is, and the range of
//! prices, over the asks that are not stale.

use vstd::prelude::*;
use vstd::seq_lib::lemma_seq_contains_after_push;
use vstd::utf8::encode_utf8;
use crate::decimal::Decimal;
use crate::decimal::MAX_MANTISSA;
use crate::decimal::decimal_text;
use crate::orderbook::Ask;
use crate::orderbook::OrderBook;

verus! {

/// The depth of one model's book.
#[derive(Debug)]
pub struct ModelDepth {
    pub model: String,
    pub ask_count: u32,
    pub provider_count: u32,
}

/// The status of the order book.
#[derive(Debug)]
pub struct OrderBookStatus {
    pub total_asks: u32,
    pub active_providers: u32,
    pub depths: Vec<ModelDepth>,
    pub min_price: String,
    pub max_price: String,
    pub last_match_timestamp: u64,
}

/// `n`, or the largest `u32` where `n` is beyond it.
pub open spec fn clamp_u32(n: nat) -> u32 {
    if n <= u32::MAX {
        n as u32
    } else {
        u32::MAX
    }
}

/// The characters of each text.
pub open spec fn texts(items: Seq<String>) -> Seq<Seq<char>> {
    items.map_values(|s: String| s@)
}

/// The texts without repetitions, each at the place of its first occurrence.
pub open spec fn distinct(items: Seq<Seq<char>>) -> Seq<Seq<char>>
    decreases items.len(),
{
    if items.len() == 0 {
        Seq::<Seq<char>>::empty()
    } else {
        let before = distinct(items.drop_last());
        if before.contains(items.last()) {
            before
        } else {
            before.push(items.last())
        }
    }
}

/// `distinct` keeps every text once: it has no duplicates, and holds a text
/// exactly if the texts it was taken from do.
pub proof fn lemma_distinct(items: Seq<Seq<char>>)
    ensures
        distinct(items).no_duplicates(),
        forall|x: Seq<char>| distinct(items).contains(x) <==> items.contains(x),
    decreases items.len(),
{
    if items.len() > 0 {
        let rest = items.drop_last();
        let last = items.last();
        let before = distinct(rest);
        lemma_distinct(rest);
        assert(items =~= rest.push(last));
        assert forall|x: Seq<char>| distinct(items).contains(x) <==> items.contains(x) by {
            lemma_seq_contains_after_push(rest, last, x);
            lemma_seq_contains_after_push(before, last, x);
            assert(before.contains(x) <==> rest.contains(x));
        }
    }
}

/// The asks that are not stale at `now`, in their order.
pub open spec fn fresh_asks(asks: Seq<Ask>, now: u64, stale_threshold: u64) -> Seq<Ask> {
    asks.filter(|a: Ask| a.spec_is_fresh(now, stale_threshold))
}

/// The asks for a model, in their order.
pub open spec fn asks_of_model(asks: Seq<Ask>, model: Seq<char>) -> Seq<Ask> {
    asks.filter(|a: Ask| a.model@ == model)
}

/// `needle` stands in `hay` from the place `at` on.
pub open spec fn occurs_at(needle: Seq<u8>, hay: Seq<u8>, at: int) -> bool {
    &&& 0 <= at
    &&& at + needle.len() <= hay.len()
    &&& hay.subrange(at, at + needle.len()) == needle
}

/// `needle` stands somewhere in `hay`.
pub open spec fn occurs_in(needle: Seq<u8>, hay: Seq<u8>) -> bool {
    exists|at: int| occurs_at(needle, hay, at)
}

/// The text stands in one of the keys.
pub open spec fn seen_in_keys(text: Seq<char>, keys: Seq<String>) -> bool {
    exists|k: int|
        0 <= k < keys.len() && occurs_in(encode_utf8(text), encode_utf8(#[trigger] keys[k]@))
}

/// The lowest price of the asks, of equal prices the first; none where there
/// are no asks.
pub open spec fn lowest_price(asks: Seq<Ask>) -> Option<Decimal>
    decreases asks.len(),
{
    if asks.len() == 0 {
        None
    } else {
        match lowest_price(asks.drop_last()) {
            Some(lowest) => if lowest.value() > asks.last().price.value() {
                Some(asks.last().price)
            } else {
                Some(lowest)
            },
            None => Some(asks.last().price),
        }
    }
}

/// The highest price of the asks, of equal prices the first; none where there
/// are no asks.
pub open spec fn highest_price(asks: Seq<Ask>) -> Option<Decimal>
    decreases asks.len(),
{
    if asks.len() == 0 {
        None
    } else {
        match highest_price(asks.drop_last()) {
            Some(highest) => if highest.value() < asks.last().price.value() {
                Some(asks.last().price)
            } else {
                Some(highest)
            },
            None => Some(asks.last().price),
        }
    }
}

/// The text of a price, or that of `none` where there is no price.
pub open spec fn price_text(price: Option<Decimal>, none: int) -> Seq<char> {
    match price {
        Some(d) => decimal_text(d.spec_mantissa(), d.spec_scale()),
        None => decimal_text(none, 0),
    }
}

/// The providers of the asks that are not stale at `now`, each once.
pub open spec fn active_providers(asks: Seq<Ask>, now: u64, stale_threshold: u64) -> Seq<
    Seq<char>,
> {
    distinct(fresh_asks(asks, now, stale_threshold).map_values(|a: Ask| a.provider_id@))
}

/// The models of the asks that are not stale at `now`, each once.
pub open spec fn active_models(asks: Seq<Ask>, now: u64, stale_threshold: u64) -> Seq<Seq<char>> {
    distinct(fresh_asks(asks, now, stale_threshold).map_values(|a: Ask| a.model@))
}

/// The status of the order book at `now`, given the keys of its asks in the
/// index store and the asks that were read under them.
pub open spec fn is_status(
    status: OrderBookStatus,
    keys: Seq<String>,
    asks: Seq<Ask>,
    now: u64,
    stale_threshold: u64,
) -> bool {
    let fresh = fresh_asks(asks, now, stale_threshold);
    let active = active_providers(asks, now, stale_threshold);
    let models = active_models(asks, now, stale_threshold);
    let seen = active.filter(|p: Seq<char>| seen_in_keys(p, keys)).len();
    &&& status.total_asks == clamp_u32(keys.len())
    &&& status.active_providers == clamp_u32(active.len())
    &&& status.depths@.len() == models.len()
    &&& forall|i: int|
        0 <= i < models.len() ==> {
            &&& (#[trigger] status.depths@[i]).model@ == models[i]
            &&& status.depths@[i].ask_count == clamp_u32(asks_of_model(fresh, models[i]).len())
            &&& status.depths@[i].provider_count == clamp_u32(seen)
        }
    &&& status.min_price@ == price_text(lowest_price(fresh), MAX_MANTISSA as int)
    &&& status.max_price@ == price_text(highest_price(fresh), -(MAX_MANTISSA as int))
    &&& status.last_match_timestamp == now
}

/// `n`, or the largest `u32` where `n` is beyond it.
pub fn clamp_to_u32(n: usize) -> (r: u32)
    ensures
        r == clamp_u32(n as nat),
{
    if n <= u32::MAX as usize {
        n as u32
    } else {
        u32::MAX
    }
}

/// Whether one of the texts has the characters of `x`.
pub fn has_text(items: &Vec<String>, x: &String) -> (r: bool)
    ensures
        r == texts(items@).contains(x@),
{
    let mut i: usize = 0;
    while i < items.len()
        invariant
            i <= items.len(),
            forall|k: int| 0 <= k < i ==> texts(items@)[k] != x@,
        decreases items.len() - i,
    {
        if items[i] == *x {
            assert(texts(items@)[i as int] == x@);
            return true;
        }
        i += 1;
    }
    false
}

/// The texts without repetitions, each at the place of its first occurrence.
pub fn distinct_texts(items: &Vec<String>) -> (r: Vec<String>)
    ensures
        texts(r@) == distinct(texts(items@)),
{
    let mut out: Vec<String> = Vec::new();
    let mut i: usize = 0;
    proof {
        assert(texts(items@).take(0) =~= Seq::<Seq<char>>::empty());
        assert(texts(out@) =~= Seq::<Seq<char>>::empty());
    }
    while i < items.len()
        invariant
            i <= items.len(),
            texts(out@) == distinct(texts(items@).take(i as int)),
        decreases items.len() - i,
    {
        let ghost before = texts(out@);
        proof {
            assert(texts(items@).take(i + 1).drop_last() =~= texts(items@).take(i as int));
            assert(texts(items@).take(i + 1).last() == items@[i as int]@);
        }
        if !has_text(&out, &items[i]) {
            out.push(items[i].clone());
            proof {
                assert(texts(out@) =~= before.push(items@[i as int]@));
            }
        }
        i += 1;
    }
    proof {
        assert(texts(items@).take(items.len() as int) =~= texts(items@));
    }
    out
}

/// The asks that are not stale at `now`.
pub fn filter_fresh(asks: &Vec<Ask>, now: u64, stale_threshold: u64) -> (r: Vec<Ask>)
    ensures
        r@ == fresh_asks(asks@, now, stale_threshold),
{
    let ghost keep = |a: Ask| a.spec_is_fresh(now, stale_threshold);
    let mut out: Vec<Ask> = Vec::new();
    let mut i: usize = 0;
    proof {
        reveal(Seq::filter);
        assert(asks@.take(0) =~= Seq::<Ask>::empty());
    }
    while i < asks.len()
        invariant
            i <= asks.len(),
            keep == (|a: Ask| a.spec_is_fresh(now, stale_threshold)),
            out@ == asks@.take(i as int).filter(keep),
        decreases asks.len() - i,
    {
        proof {
            asks@.lemma_take_succ_push(i as int);
            asks@.take(i as int).lemma_filter_push(asks@[i as int], keep);
        }
        if asks[i].is_fresh(now, stale_threshold) {
            out.push(asks[i].clone());
        }
        i += 1;
    }
    proof {
        assert(asks@.take(asks.len() as int) =~= asks@);
    }
    out
}

/// The number of asks for the model.
pub fn count_model(asks: &Vec<Ask>, model: &String) -> (n: usize)
    ensures
        n == asks_of_model(asks@, model@).len(),
{
    let ghost keep = |a: Ask| a.model@ == model@;
    let mut n: usize = 0;
    let mut i: usize = 0;
    proof {
        reveal(Seq::filter);
        assert(asks@.take(0) =~= Seq::<Ask>::empty());
    }
    while i < asks.len()
        invariant
            i <= asks.len(),
            n <= i,
            keep == (|a: Ask| a.model@ == model@),
            n == asks@.take(i as int).filter(keep).len(),
        decreases asks.len() - i,
    {
        proof {
            asks@.lemma_take_succ_push(i as int);
            asks@.take(i as int).lemma_filter_push(asks@[i as int], keep);
        }
        if asks[i].model == *model {
            n += 1;
        }
        i += 1;
    }
    proof {
        assert(asks@.take(asks.len() as int) =~= asks@);
    }
    n
}

/// Whether `needle` stands in `hay` from the place `at` on.
pub fn stands_at(needle: &[u8], hay: &[u8], at: usize) -> (r: bool)
    requires
        at + needle@.len() <= hay@.len(),
    ensures
        r == occurs_at(needle@, hay@, at as int),
{
    let length: usize = hay.len();
    let mut j: usize = 0;
    while j < needle.len()
        invariant
            j <= needle.len(),
            length == hay@.len(),
            at + needle@.len() <= hay@.len(),
            forall|k: int| 0 <= k < j ==> hay@[at + k] == needle@[k],
        decreases needle.len() - j,
    {
        if hay[at + j] != needle[j] {
            proof {
                assert(hay@.subrange(at as int, at + needle@.len())[j as int] == hay@[at + j]);
            }
            return false;
        }
        j += 1;
    }
    proof {
        assert(hay@.subrange(at as int, at + needle@.len()) =~= needle@);
    }
    true
}

/// Whether `needle` stands somewhere in `hay`.
pub fn occurs(needle: &[u8], hay: &[u8]) -> (r: bool)
    ensures
        r == occurs_in(needle@, hay@),
{
    if needle.len() > hay.len() {
        return false;
    }
    let last: usize = hay.len() - needle.len();
    let mut at: usize = 0;
    while at < last
        invariant
            at <= last,
            last == hay@.len() - needle@.len(),
            forall|k: int| 0 <= k < at ==> !occurs_at(needle@, hay@, k),
        decreases last - at,
    {
        if stands_at(needle, hay, at) {
            return true;
        }
        at += 1;
    }
    stands_at(needle, hay, last)
}

/// Whether the text stands in one of the keys.
pub fn is_seen_in_keys(text: &String, keys: &Vec<String>) -> (r: bool)
    ensures
        r == seen_in_keys(text@, keys@),
{
    let mut k: usize = 0;
    while k < keys.len()
        invariant
            k <= keys.len(),
            forall|j: int|
                0 <= j < k ==> !occurs_in(encode_utf8(text@), encode_utf8(#[trigger] keys@[j]@)),
        decreases keys.len() - k,
    {
        if occurs(text.as_str().as_bytes(), keys[k].as_str().as_bytes()) {
            return true;
        }
        k += 1;
    }
    false
}

/// The number of the texts that stand in one of the keys.
pub fn count_seen(items: &Vec<String>, keys: &Vec<String>) -> (n: usize)
    ensures
        n == texts(items@).filter(|p: Seq<char>| seen_in_keys(p, keys@)).len(),
{
    let ghost keep = |p: Seq<char>| seen_in_keys(p, keys@);
    let mut n: usize = 0;
    let mut i: usize = 0;
    proof {
        reveal(Seq::filter);
        assert(texts(items@).take(0) =~= Seq::<Seq<char>>::empty());
    }
    while i < items.len()
        invariant
            i <= items.len(),
            n <= i,
            keep == (|p: Seq<char>| seen_in_keys(p, keys@)),
            n == texts(items@).take(i as int).filter(keep).len(),
        decreases items.len() - i,
    {
        proof {
            texts(items@).lemma_take_succ_push(i as int);
            texts(items@).take(i as int).lemma_filter_push(texts(items@)[i as int], keep);
        }
        if is_seen_in_keys(&items[i], keys) {
            n += 1;
        }
        i += 1;
    }
    proof {
        assert(texts(items@).take(items.len() as int) =~= texts(items@));
    }
    n
}

/// The lowest and the highest price of the asks; the largest and the smallest
/// decimal where there are no asks.
pub fn price_range(asks: &Vec<Ask>) -> (r: (Decimal, Decimal))
    ensures
        match lowest_price(asks@) {
            Some(lowest) => r.0 == lowest,
            None => r.0.parts() == (MAX_MANTISSA as int, 0nat),
        },
        match highest_price(asks@) {
            Some(highest) => r.1 == highest,
            None => r.1.parts() == (-(MAX_MANTISSA as int), 0nat),
        },
{
    if asks.len() == 0 {
        return (Decimal::max_value(), Decimal::min_value());
    }
    let mut lowest = asks[0].price;
    let mut highest = asks[0].price;
    let mut i: usize = 1;
    proof {
        reveal_with_fuel(lowest_price, 2);
        reveal_with_fuel(highest_price, 2);
        assert(asks@.take(1).drop_last() =~= Seq::<Ask>::empty());
    }
    while i < asks.len()
        invariant
            1 <= i <= asks.len(),
            lowest_price(asks@.take(i as int)) == Some(lowest),
            highest_price(asks@.take(i as int)) == Some(highest),
        decreases asks.len() - i,
    {
        proof {
            assert(asks@.take(i + 1).drop_last() =~= asks@.take(i as int));
        }
        if lowest.gt(&asks[i].price) {
            lowest = asks[i].price;
        }
        if highest.lt(&asks[i].price) {
            highest = asks[i].price;
        }
        i += 1;
    }
    proof {
        assert(asks@.take(asks.len() as int) =~= asks@);
    }
    (lowest, highest)
}

impl OrderBook {
    /// The status of the order book at `now`. `keys` are the keys of the asks
    /// that the index store holds, for all models or for the one that was
    /// asked for, and `asks` are the asks that could be read under them.
    pub fn status(&self, keys: &Vec<String>, asks: &Vec<Ask>, now: u64) -> (status: OrderBookStatus)
        ensures
            is_status(status, keys@, asks@, now, self.spec_stale_threshold()),
    {
        let fresh = filter_fresh(asks, now, self.stale_threshold());
        let mut provider_ids: Vec<String> = Vec::new();
        let mut model_names: Vec<String> = Vec::new();
        let mut i: usize = 0;
        while i < fresh.len()
            invariant
                i <= fresh.len(),
                provider_ids@.len() == i,
                model_names@.len() == i,
                forall|k: int|
                    0 <= k < i ==> (#[trigger] provider_ids@[k])@ == fresh@[k].provider_id@,
                forall|k: int| 0 <= k < i ==> (#[trigger] model_names@[k])@ == fresh@[k].model@,
            decreases fresh.len() - i,
        {
            provider_ids.push(fresh[i].provider_id.clone());
            model_names.push(fresh[i].model.clone());
            i += 1;
        }
        proof {
            assert(texts(provider_ids@) =~= fresh@.map_values(|a: Ask| a.provider_id@));
            assert(texts(model_names@) =~= fresh@.map_values(|a: Ask| a.model@));
        }
        let active = distinct_texts(&provider_ids);
        let models = distinct_texts(&model_names);
        let provider_count = clamp_to_u32(count_seen(&active, keys));
        let mut depths: Vec<ModelDepth> = Vec::new();
        let mut m: usize = 0;
        while m < models.len()
            invariant
                m <= models.len(),
                depths@.len() == m,
                forall|k: int|
                    0 <= k < m ==> {
                        &&& (#[trigger] depths@[k]).model@ == texts(models@)[k]
                        &&& depths@[k].ask_count == clamp_u32(
                            asks_of_model(fresh@, texts(models@)[k]).len(),
                        )
                        &&& depths@[k].provider_count == provider_count
                    },
            decreases models.len() - m,
        {
            let ask_count = clamp_to_u32(count_model(&fresh, &models[m]));
            depths.push(ModelDepth { model: models[m].clone(), ask_count, provider_count });
            m += 1;
        }
        let (lowest, highest) = price_range(&fresh);
        OrderBookStatus {
            total_asks: clamp_to_u32(keys.len()),
            active_providers: clamp_to_u32(active.len()),
            depths,
            min_price: lowest.to_string(),
            max_price: highest.to_string(),
            last_match_timestamp: now,
        }
    }
}

} // verus!
