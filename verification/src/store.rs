//! What is written to the index store: the layout of its keys and the
//! commands that an operation hands out for it.

use vstd::prelude::*;
use crate::decimal::Decimal;
use crate::orderbook::Ask;
use crate::orderbook::CreditTransaction;
use crate::orderbook::OrderBook;
use crate::text::join2;
use crate::text::join4;

verus! {

/// One write to the index store.
#[derive(Debug)]
pub enum StoreCommand {
    /// Set `key` to the ask, written as JSON.
    PutAsk { key: String, ask: Ask },
    /// Add `member` to the ordered set `key`, scored by the price.
    IndexPrice { key: String, member: String, price: Decimal },
    /// Add `member` to the ordered set `key`, scored by the latency.
    IndexLatency { key: String, member: String, latency: u32 },
    /// Delete `key`.
    DeleteKey { key: String },
    /// Take `member` out of the ordered set `key`.
    Unindex { key: String, member: String },
    /// Set `key` to the balance, written as a decimal number.
    SetBalance { key: String, balance: Decimal },
    /// Append the record, written as JSON, to the list `key`.
    AppendTransaction { key: String, record: CreditTransaction },
}

/// The key of the ask of a provider for a model: `ask:{provider_id}:{model}`.
pub open spec fn ask_key(provider_id: Seq<char>, model: Seq<char>) -> Seq<char> {
    "ask:"@ + provider_id + ":"@ + model
}

/// The key of the price index of a model on a GPU class:
/// `price:{model}:{gpu_type}`.
pub open spec fn price_index_key(model: Seq<char>, gpu_type: Seq<char>) -> Seq<char> {
    "price:"@ + model + ":"@ + gpu_type
}

/// The key of the latency index of a model on a GPU class:
/// `latency:{model}:{gpu_type}`.
pub open spec fn latency_index_key(model: Seq<char>, gpu_type: Seq<char>) -> Seq<char> {
    "latency:"@ + model + ":"@ + gpu_type
}

/// The key of a user's balance: `credit:balance:{user_id}`.
pub open spec fn balance_key(user_id: Seq<char>) -> Seq<char> {
    "credit:balance:"@ + user_id
}

/// The key of a user's list of transactions: `credit:transactions:{user_id}`.
pub open spec fn transactions_key(user_id: Seq<char>) -> Seq<char> {
    "credit:transactions:"@ + user_id
}

/// The pattern of the keys of all asks, or of the asks for one model:
/// `ask:*`, or `ask:*:{model}`.
pub open spec fn ask_pattern(model: Seq<char>) -> Seq<char> {
    if model.len() == 0 {
        "ask:*"@
    } else {
        "ask:*:"@ + model
    }
}

/// The key of the ask of a provider for a model.
pub fn make_ask_key(provider_id: &str, model: &str) -> (key: String)
    ensures
        key@ == ask_key(provider_id@, model@),
{
    join4("ask:", provider_id, ":", model)
}

/// The key of the price index of a model on a GPU class.
pub fn make_price_index_key(model: &str, gpu_type: &str) -> (key: String)
    ensures
        key@ == price_index_key(model@, gpu_type@),
{
    join4("price:", model, ":", gpu_type)
}

/// The key of the latency index of a model on a GPU class.
pub fn make_latency_index_key(model: &str, gpu_type: &str) -> (key: String)
    ensures
        key@ == latency_index_key(model@, gpu_type@),
{
    join4("latency:", model, ":", gpu_type)
}

/// The key of a user's balance.
pub fn make_balance_key(user_id: &str) -> (key: String)
    ensures
        key@ == balance_key(user_id@),
{
    join2("credit:balance:", user_id)
}

/// The key of a user's list of transactions.
pub fn make_transactions_key(user_id: &str) -> (key: String)
    ensures
        key@ == transactions_key(user_id@),
{
    join2("credit:transactions:", user_id)
}

/// The pattern of the keys to read for the status of the order book: of all
/// asks where `model` is empty, else of the asks for that model.
pub fn make_ask_pattern(model: &str) -> (pattern: String)
    ensures
        pattern@ == ask_pattern(model@),
{
    if model.unicode_len() == 0 {
        String::from_str("ask:*")
    } else {
        join2("ask:*:", model)
    }
}

/// The three writes that publish an ask: the full record first, then its
/// entries in the price index and in the latency index.
pub open spec fn publishes(commands: Seq<StoreCommand>, ask: Ask) -> bool {
    &&& commands.len() == 3
    &&& commands[0] matches StoreCommand::PutAsk { key, ask: stored }
    &&& key@ == ask_key(ask.provider_id@, ask.model@)
    &&& stored == ask
    &&& commands[1] matches StoreCommand::IndexPrice { key, member, price }
    &&& key@ == price_index_key(ask.model@, ask.gpu_type@)
    &&& member@ == ask.provider_id@
    &&& price == ask.price
    &&& commands[2] matches StoreCommand::IndexLatency { key, member, latency }
    &&& key@ == latency_index_key(ask.model@, ask.gpu_type@)
    &&& member@ == ask.provider_id@
    &&& latency == ask.max_latency
}

/// The three writes that remove an ask: its record, then its entries in the
/// price index and in the latency index.
pub open spec fn removes(commands: Seq<StoreCommand>, ask: Ask) -> bool {
    &&& commands.len() == 3
    &&& commands[0] matches StoreCommand::DeleteKey { key }
    &&& key@ == ask_key(ask.provider_id@, ask.model@)
    &&& commands[1] matches StoreCommand::Unindex { key, member }
    &&& key@ == price_index_key(ask.model@, ask.gpu_type@)
    &&& member@ == ask.provider_id@
    &&& commands[2] matches StoreCommand::Unindex { key, member }
    &&& key@ == latency_index_key(ask.model@, ask.gpu_type@)
    &&& member@ == ask.provider_id@
}

/// The asks that are stale at `now`, in their order.
pub open spec fn stale_asks(asks: Seq<Ask>, now: u64, stale_threshold: u64) -> Seq<Ask> {
    asks.filter(|a: Ask| !a.spec_is_fresh(now, stale_threshold))
}

impl OrderBook {
    /// The writes that publish the ask, or replace the one that the same
    /// provider published for the same model.
    pub fn add_ask(&self, ask: &Ask) -> (commands: Vec<StoreCommand>)
        ensures
            publishes(commands@, *ask),
    {
        let mut commands: Vec<StoreCommand> = Vec::new();
        commands.push(
            StoreCommand::PutAsk {
                key: make_ask_key(ask.provider_id.as_str(), ask.model.as_str()),
                ask: ask.clone(),
            },
        );
        commands.push(
            StoreCommand::IndexPrice {
                key: make_price_index_key(ask.model.as_str(), ask.gpu_type.as_str()),
                member: ask.provider_id.clone(),
                price: ask.price,
            },
        );
        commands.push(
            StoreCommand::IndexLatency {
                key: make_latency_index_key(ask.model.as_str(), ask.gpu_type.as_str()),
                member: ask.provider_id.clone(),
                latency: ask.max_latency,
            },
        );
        commands
    }

    /// The writes that remove the asks that are stale at `now`, three for
    /// each in the order of the asks, and the number of those asks (the
    /// largest `u32` where there are more).
    pub fn remove_stale(&self, asks: &Vec<Ask>, now: u64) -> (r: (Vec<StoreCommand>, u32))
        ensures
            ({
                let stale = stale_asks(asks@, now, self.spec_stale_threshold());
                &&& r.0@.len() == 3 * stale.len()
                &&& forall|k: int|
                    0 <= k < stale.len() ==> removes(
                        #[trigger] r.0@.subrange(3 * k, 3 * k + 3),
                        stale[k],
                    )
                &&& r.1 == if stale.len() <= u32::MAX {
                    stale.len() as u32
                } else {
                    u32::MAX
                }
            }),
    {
        let ghost is_stale = |a: Ask| !a.spec_is_fresh(now, self.spec_stale_threshold());
        let mut commands: Vec<StoreCommand> = Vec::new();
        let mut removed: u32 = 0;
        let mut i: usize = 0;
        proof {
            reveal(Seq::filter);
            assert(asks@.take(0) =~= Seq::<Ask>::empty());
        }
        while i < asks.len()
            invariant
                i <= asks.len(),
                is_stale == (|a: Ask| !a.spec_is_fresh(now, self.spec_stale_threshold())),
                commands@.len() == 3 * asks@.take(i as int).filter(is_stale).len(),
                forall|k: int|
                    0 <= k < asks@.take(i as int).filter(is_stale).len() ==> removes(
                        #[trigger] commands@.subrange(3 * k, 3 * k + 3),
                        asks@.take(i as int).filter(is_stale)[k],
                    ),
                removed == if asks@.take(i as int).filter(is_stale).len() <= u32::MAX {
                    asks@.take(i as int).filter(is_stale).len() as u32
                } else {
                    u32::MAX
                },
            decreases asks.len() - i,
        {
            let ghost seen = asks@.take(i as int).filter(is_stale);
            let ghost before = commands@;
            proof {
                asks@.lemma_take_succ_push(i as int);
                asks@.take(i as int).lemma_filter_push(asks@[i as int], is_stale);
            }
            let ask = &asks[i];
            if !ask.is_fresh(now, self.stale_threshold()) {
                commands.push(
                    StoreCommand::DeleteKey {
                        key: make_ask_key(ask.provider_id.as_str(), ask.model.as_str()),
                    },
                );
                commands.push(
                    StoreCommand::Unindex {
                        key: make_price_index_key(ask.model.as_str(), ask.gpu_type.as_str()),
                        member: ask.provider_id.clone(),
                    },
                );
                commands.push(
                    StoreCommand::Unindex {
                        key: make_latency_index_key(ask.model.as_str(), ask.gpu_type.as_str()),
                        member: ask.provider_id.clone(),
                    },
                );
                if removed < u32::MAX {
                    removed += 1;
                }
                proof {
                    let now_seen = asks@.take(i + 1).filter(is_stale);
                    assert(now_seen == seen.push(asks@[i as int]));
                    assert forall|k: int| 0 <= k < now_seen.len() implies removes(
                        #[trigger] commands@.subrange(3 * k, 3 * k + 3),
                        now_seen[k],
                    ) by {
                        if k < seen.len() {
                            assert(commands@.subrange(3 * k, 3 * k + 3) =~= before.subrange(
                                3 * k,
                                3 * k + 3,
                            ));
                        }
                    }
                }
            }
            i += 1;
        }
        proof {
            assert(asks@.take(asks.len() as int) =~= asks@);
        }
        (commands, removed)
    }
}

} // verus!
