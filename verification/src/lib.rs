//! Matching engine for an inference marketplace: providers publish asks,
//! clients submit bids, and every bid is matched against the live asks under
//! the admission policies and the credit ledger.
//!
//! The engine computes and decides; it reads no store, no clock and no
//! network. Its callers hand in what they read and carry out what it hands
//! back.

pub mod decimal;
pub mod error;
pub mod text;
pub mod orderbook;
pub mod store;
pub mod status;
pub mod ledger;
pub mod circuit_breaker;
pub mod rate_limiter;
pub mod latency;
pub mod service;
pub mod stream;

pub use crate::circuit_breaker::CircuitBreaker;
pub use crate::circuit_breaker::CircuitState;
pub use crate::decimal::Decimal;
pub use crate::error::MatchError;
pub use crate::latency::LatencyRouter;
pub use crate::latency::LatencyStats;
pub use crate::orderbook::Ask;
pub use crate::orderbook::Bid;
pub use crate::orderbook::find_best_match;
pub use crate::orderbook::CreditTransaction;
pub use crate::orderbook::OrderBook;
pub use crate::rate_limiter::RateLimiter;
pub use crate::rate_limiter::TokenBucket;
pub use crate::service::MatcherService;
pub use crate::store::StoreCommand;
